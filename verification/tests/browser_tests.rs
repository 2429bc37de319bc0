use tonique::config::Config;
use tonique::filepicker::{filter_files, is_audio_file, keep_entry, sort_entries, File};
use tonique::left_panel::{LeftPanelTabs, UILeftPanel, SEARCH_DELAY_MS};
use tonique::ui::{UITopBar, UIWaveform};

fn s(x: &str) -> String {
    x.to_string()
}

fn dir(path: &str, children: Vec<File>) -> File {
    let mut f = File::new(s(path), false);
    f.get_children(children);
    f
}

fn leaf(path: &str) -> File {
    dir(path, vec![])
}

#[test]
fn config_adds_a_directory_once() {
    let mut c = Config::new();
    assert!(c.add_dir(s("/music/samples")));
    assert!(!c.add_dir(s("/music/samples")));
    assert_eq!(c.list_dirs(), vec![s("/music/samples")]);
}

#[test]
fn config_compares_directories_as_paths() {
    let mut c = Config::new();
    assert!(c.add_dir(s("/music/samples")));
    assert!(!c.add_dir(s("/music//samples/")));
    assert!(c.contains_dir(&s("/music/samples/")));
    assert!(c.add_dir(s("/music/other")));
    assert_eq!(c.list_dirs(), vec![s("/music/samples"), s("/music/other")]);
}

#[test]
fn config_removes_a_directory() {
    let mut c = Config::from_dirs(vec![s("/a"), s("/b"), s("/a/")]);
    c.remove_dir(&s("/a"));
    assert_eq!(c.list_dirs(), vec![s("/b")]);
    c.remove_dir(&s("/zzz"));
    assert_eq!(c.list_dirs(), vec![s("/b")]);
}

#[test]
fn search_starts_after_the_delay() {
    let mut p = UILeftPanel::new();
    assert!(matches!(p.tab, LeftPanelTabs::Files));
    p.select_tab(LeftPanelTabs::Effects);
    assert!(matches!(p.tab, LeftPanelTabs::Effects));
    p.set_search(s("kick"));
    assert_eq!(p.search_tick(1000), None);
    assert_eq!(p.search_tick(1000 + SEARCH_DELAY_MS - 1), None);
    assert_eq!(p.search_tick(1000 + SEARCH_DELAY_MS), Some(s("kick")));
    assert_eq!(p.search_tick(5000), None);
}

#[test]
fn changed_search_restarts_the_delay() {
    let mut p = UILeftPanel::new();
    p.set_search(s("ki"));
    assert_eq!(p.search_tick(0), None);
    p.set_search(s("kick"));
    assert_eq!(p.search_tick(200), None);
    assert_eq!(p.search_tick(400), None);
    assert_eq!(p.search_tick(500), Some(s("kick")));
}

#[test]
fn clock_going_back_does_not_start_search() {
    let mut p = UILeftPanel::new();
    p.set_search(s("a"));
    assert_eq!(p.search_tick(1000), None);
    assert_eq!(p.search_tick(10), None);
}

#[test]
fn audio_files_are_known_by_extension() {
    assert!(is_audio_file(&s("/x/song.mp3")));
    assert!(is_audio_file(&s("/x/Song.WAV")));
    assert!(is_audio_file(&s("beat.MiD")));
    assert!(is_audio_file(&s("a.flac")));
    assert!(!is_audio_file(&s("/x/notes.txt")));
    assert!(!is_audio_file(&s("/x/wav")));
    assert!(!is_audio_file(&s("/x/.mp3")));
}

#[test]
fn entries_kept_are_directories_and_audio_files() {
    assert!(keep_entry(&s("/x/folder"), true));
    assert!(keep_entry(&s("/x/a.ogg"), false));
    assert!(!keep_entry(&s("/x/a.pdf"), false));
}

#[test]
fn children_read_once() {
    let mut f = File::new(s("/x"), true);
    assert!(f.needs_children());
    f.get_children(vec![leaf("/x/a.wav")]);
    assert!(!f.needs_children());
    f.get_children(vec![leaf("/x/b.wav"), leaf("/x/c.wav")]);
    assert_eq!(f.children.as_ref().unwrap().len(), 1);
    assert_eq!(f.children.as_ref().unwrap()[0].entry, "/x/a.wav");
}

#[test]
fn filter_keeps_matching_names_and_their_parents() {
    let tree = dir(
        "/lib",
        vec![
            dir("/lib/Drums", vec![leaf("/lib/Drums/Kick.wav"), leaf("/lib/Drums/snare.wav")]),
            dir("/lib/Keys", vec![leaf("/lib/Keys/piano.wav")]),
        ],
    );
    let r = filter_files(&tree, "KICK").unwrap();
    assert_eq!(r.entry, "/lib");
    let kids = r.children.unwrap();
    assert_eq!(kids.len(), 1);
    assert_eq!(kids[0].entry, "/lib/Drums");
    let leaves = kids[0].children.as_ref().unwrap();
    assert_eq!(leaves.len(), 1);
    assert_eq!(leaves[0].entry, "/lib/Drums/Kick.wav");

    let r = filter_files(&tree, "drums").unwrap();
    let kids = r.children.unwrap();
    assert_eq!(kids.len(), 1);
    assert!(kids[0].children.is_none());

    assert!(filter_files(&tree, "guitar").is_none());
}

#[test]
fn stateless_painters() {
    let _ = UITopBar::new();
    let _ = UIWaveform::new().clone();
}

#[test]
fn entries_sorted_by_file_name_stably() {
    let entries = vec![
        File::new(s("/d1/b.wav"), false),
        File::new(s("/d2/k.wav"), false),
        File::new(s("/d1/A.wav"), false),
        File::new(s("/"), false),
        File::new(s("/d1/k.wav"), false),
        File::new(s("/d1/a.wav"), false),
    ];
    let sorted: Vec<String> = sort_entries(entries).into_iter().map(|f| f.entry).collect();
    assert_eq!(
        sorted,
        vec![s("/"), s("/d1/A.wav"), s("/d1/a.wav"), s("/d1/b.wav"), s("/d2/k.wav"), s("/d1/k.wav")]
    );
}

#[test]
fn lowered_names_match_by_substring() {
    assert!(tonique::filepicker::lowered_name_matches(Some(s("kick.wav")), &s("ick")));
    assert!(tonique::filepicker::lowered_name_matches(Some(s("kick.wav")), &s("")));
    assert!(!tonique::filepicker::lowered_name_matches(Some(s("kick.wav")), &s("Kick")));
    assert!(!tonique::filepicker::lowered_name_matches(None, &s("")));
}
