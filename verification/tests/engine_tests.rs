use tonique::command::PlayerCommand;
use tonique::engine::{build_layers, BusTrackData, Engine, TrackBackend, TrackKind};
use tonique::player::{metronome_clicks, AudioManager, PlayerAction, CHUNK_SIZE};
use tonique::state::{PlaybackState, ToniqueProjectState};
use tonique::track::{ClipCore, TrackCore};

fn clip(id: &str) -> ClipCore {
    ClipCore {
        id: id.to_string(),
        audio_path: format!("{}.wav", id),
        position_bits: 0,
        trim_start_bits: 0,
        trim_end_bits: 0x3F80_0000,
    }
}

fn track<'a>(e: &'a Engine, id: &str) -> &'a TrackBackend {
    e.tracks.iter().find(|t| t.id == id).unwrap()
}

fn clip_ids(e: &Engine, id: &str) -> Vec<String> {
    match &track(e, id).kind {
        TrackKind::Audio(c) => c.iter().map(|c| c.id.clone()).collect(),
        _ => panic!("not an audio track"),
    }
}

fn children(e: &Engine, id: &str) -> Vec<String> {
    match &track(e, id).kind {
        TrackKind::Bus(b) => b.children.clone(),
        _ => panic!("not a bus"),
    }
}

fn s(x: &str) -> String {
    x.to_string()
}

fn nothing(a: PlayerAction) -> bool {
    matches!(a, PlayerAction::Nothing)
}

#[test]
fn bus_track_data_starts_empty() {
    assert!(BusTrackData::new().children.is_empty());
}

#[test]
fn new_engine_holds_master_bus() {
    let e = Engine::new(48000, 0x42F0_0000);
    assert_eq!(e.tracks.len(), 1);
    assert_eq!(e.tracks[0].id, "master");
    assert!(children(&e, "master").is_empty());
    assert_eq!(e.tree_layers, vec![vec![s("master")]]);
    assert_eq!(e.sample_rate, 48000);
}

#[test]
fn add_track_message_adds_child_of_master() {
    let mut m = AudioManager::new();
    assert!(nothing(m.handle_message(PlayerCommand::AddTrack(s("a")))));
    assert!(nothing(m.handle_message(PlayerCommand::AddTrack(s("b")))));
    assert_eq!(m.engine.tracks.len(), 3);
    assert_eq!(children(&m.engine, "master"), vec![s("a"), s("b")]);
    assert!(clip_ids(&m.engine, "a").is_empty());
}

#[test]
fn adding_same_track_twice_keeps_one_track() {
    let mut m = AudioManager::new();
    m.handle_message(PlayerCommand::AddTrack(s("a")));
    m.handle_message(PlayerCommand::AddClip(s("a"), clip("c1")));
    m.handle_message(PlayerCommand::AddTrack(s("a")));
    let count = m.engine.tracks.iter().filter(|t| t.id == "a").count();
    assert_eq!(count, 1);
    assert!(clip_ids(&m.engine, "a").is_empty());
    assert_eq!(children(&m.engine, "master"), vec![s("a"), s("a")]);
}

#[test]
fn add_then_remove_track_gives_back_engine() {
    let mut m = AudioManager::new();
    m.handle_message(PlayerCommand::AddTrack(s("a")));
    m.handle_message(PlayerCommand::SoloTracks(vec![s("a")]));
    m.handle_message(PlayerCommand::RemoveTrack(s("a")));
    assert_eq!(m.engine.tracks.len(), 1);
    assert!(children(&m.engine, "master").is_empty());
    assert!(m.engine.solo_tracks.is_empty());
}

#[test]
fn clips_are_added_moved_resized_and_removed() {
    let mut m = AudioManager::new();
    m.handle_message(PlayerCommand::AddTrack(s("a")));
    m.handle_message(PlayerCommand::AddTrack(s("b")));
    m.handle_message(PlayerCommand::AddClips(vec![
        (s("a"), vec![clip("c1"), clip("c2")]),
        (s("b"), vec![clip("c3")]),
        (s("missing"), vec![clip("c4")]),
    ]));
    assert_eq!(clip_ids(&m.engine, "a"), vec![s("c1"), s("c2")]);
    assert_eq!(clip_ids(&m.engine, "b"), vec![s("c3")]);

    m.handle_message(PlayerCommand::MoveClip(s("c1"), s("b"), 0x4040_0000));
    assert_eq!(clip_ids(&m.engine, "a"), vec![s("c2")]);
    assert_eq!(clip_ids(&m.engine, "b"), vec![s("c3"), s("c1")]);
    match &track(&m.engine, "b").kind {
        TrackKind::Audio(c) => assert_eq!(c[1].position_bits, 0x4040_0000),
        _ => panic!(),
    }

    m.handle_message(PlayerCommand::ResizeClip(s("c3"), 1, 2, 3));
    match &track(&m.engine, "b").kind {
        TrackKind::Audio(c) => {
            assert_eq!((c[0].trim_start_bits, c[0].trim_end_bits, c[0].position_bits), (1, 2, 3));
        },
        _ => panic!(),
    }

    m.handle_message(PlayerCommand::ResizeClips(s("b"), vec![(s("c1"), 5, 6), (s("c1"), 7, 8)]));
    match &track(&m.engine, "b").kind {
        TrackKind::Audio(c) => {
            assert_eq!((c[1].trim_start_bits, c[1].trim_end_bits), (5, 6));
            assert_eq!((c[0].trim_start_bits, c[0].trim_end_bits), (1, 2));
        },
        _ => panic!(),
    }

    m.handle_message(PlayerCommand::RemoveClip(vec![s("c1"), s("c2")]));
    assert!(clip_ids(&m.engine, "a").is_empty());
    assert_eq!(clip_ids(&m.engine, "b"), vec![s("c3")]);
}

#[test]
fn moving_clip_to_bus_drops_it() {
    let mut m = AudioManager::new();
    m.handle_message(PlayerCommand::AddTrack(s("a")));
    m.handle_message(PlayerCommand::AddClip(s("a"), clip("c1")));
    m.handle_message(PlayerCommand::MoveClip(s("c1"), s("master"), 0));
    assert!(clip_ids(&m.engine, "a").is_empty());
    assert_eq!(m.engine.tracks.len(), 2);
}

#[test]
fn mute_volume_and_disabled() {
    let mut m = AudioManager::new();
    m.handle_message(PlayerCommand::AddTrack(s("a")));
    m.handle_message(PlayerCommand::AddTrack(s("b")));
    m.handle_message(PlayerCommand::MuteTrack(s("a"), true));
    m.handle_message(PlayerCommand::ChangeTrackVolume(s("b"), 0x3F00_0000));
    assert!(track(&m.engine, "a").muted);
    assert_eq!(track(&m.engine, "b").volume_bits, 0x3F00_0000);
    let none: Vec<String> = vec![];
    assert!(track(&m.engine, "a").disabled(&none));
    assert!(!track(&m.engine, "b").disabled(&none));
    let solo = vec![s("a")];
    assert!(!track(&m.engine, "a").disabled(&solo));
    assert!(track(&m.engine, "b").disabled(&solo));
}

#[test]
fn effect_nodes_are_inserted_removed_and_switched() {
    let mut m = AudioManager::new();
    m.handle_message(PlayerCommand::AddTrack(s("a")));
    let a = m.handle_message(PlayerCommand::AddNode(s("a"), 0, s("eq")));
    assert!(matches!(a, PlayerAction::InsertNode(ref t, 0) if t == "a"));
    let a = m.handle_message(PlayerCommand::AddNode(s("a"), 1, s("comp")));
    assert!(matches!(a, PlayerAction::InsertNode(_, 1)));
    let a = m.handle_message(PlayerCommand::AddNode(s("missing"), 5, s("x")));
    assert!(nothing(a));
    let a = m.handle_message(PlayerCommand::SetNodeEnabled(s("a"), s("comp"), false));
    assert!(matches!(a, PlayerAction::FadeNode(_, 1, false)));
    assert!(!track(&m.engine, "a").nodes[1].enabled);
    let a = m.handle_message(PlayerCommand::RemoveNode(s("a"), s("eq")));
    assert!(matches!(a, PlayerAction::RemoveNode(_, 0)));
    assert_eq!(track(&m.engine, "a").nodes.len(), 1);
    assert_eq!(track(&m.engine, "a").nodes[0].effect_id, "comp");
    let a = m.handle_message(PlayerCommand::RemoveNode(s("a"), s("eq")));
    assert!(nothing(a));
}

#[test]
fn second_node_under_same_id_shadows_first() {
    let mut t = TrackBackend::new_audio_track(&s("a"));
    t.add_node(s("fx"), 0);
    t.add_node(s("fx"), 1);
    assert!(!t.nodes[0].bound);
    assert!(t.nodes[1].bound);
    assert_eq!(t.remove_node(&s("fx")), Some(1));
    assert_eq!(t.nodes.len(), 1);
    assert_eq!(t.remove_node(&s("fx")), None);
}

#[test]
fn duplicate_track_renames_clips_and_missing_track_stops() {
    let mut m = AudioManager::new();
    m.handle_message(PlayerCommand::AddTrack(s("a")));
    m.handle_message(PlayerCommand::AddClips(vec![(s("a"), vec![clip("c1"), clip("c2")])]));
    let a = m.handle_message(PlayerCommand::DuplicateTrack {
        id: s("a"),
        new_id: s("a2"),
        clip_map: vec![(s("c1"), s("d1"))],
    });
    assert!(nothing(a));
    assert_eq!(clip_ids(&m.engine, "a2"), vec![s("d1"), s("c2")]);
    assert_eq!(children(&m.engine, "master"), vec![s("a"), s("a2")]);
    let before = m.engine.tracks.len();
    let a = m.handle_message(PlayerCommand::DuplicateTrack {
        id: s("nope"),
        new_id: s("x"),
        clip_map: vec![],
    });
    assert!(matches!(a, PlayerAction::Stop));
    assert_eq!(m.engine.tracks.len(), before);
}

#[test]
fn transport_messages_and_actions() {
    let mut m = AudioManager::new();
    m.start_output(false, 48000);
    assert_eq!(m.engine.sample_rate, 48000);
    assert_eq!(m.output_playhead, Some(0));
    m.handle_message(PlayerCommand::Play);
    assert_eq!(m.playback_state, PlaybackState::Playing);
    assert!(m.needs_processing());
    assert!(m.can_process(0));
    assert!(!m.can_process(7 * CHUNK_SIZE));
    m.advance(CHUNK_SIZE);
    assert_eq!(m.playhead, CHUNK_SIZE);
    assert!(m.on_chunk_sent(200));
    assert_eq!(m.output_playhead, Some(100));
    m.handle_message(PlayerCommand::Pause);
    assert_eq!(m.playhead, 100);
    assert!(!m.needs_processing());
    assert!(!m.on_chunk_sent(200));
    assert_eq!(m.output_playhead, Some(100));

    assert!(matches!(m.handle_message(PlayerCommand::SeekTo(7)), PlayerAction::Seek(7)));
    assert!(matches!(m.seek_frames(500), PlayerAction::ClearBuffer));
    assert_eq!((m.playhead, m.output_playhead), (500, Some(500)));
    assert!(matches!(m.handle_message(PlayerCommand::UpdateBpm(9)), PlayerAction::Retempo(9)));
    m.set_tempo(250, 9);
    assert_eq!((m.playhead, m.engine.bpm_bits), (250, 9));

    let a = m.handle_message(PlayerCommand::PlayPreview(s("x.wav")));
    assert!(matches!(a, PlayerAction::StartPreview(ref f) if f == "x.wav"));
    assert_eq!(m.preview_state, PlaybackState::Playing);
    m.handle_message(PlayerCommand::Play);
    assert_eq!(m.preview_state, PlaybackState::Paused);
    assert!(nothing(m.handle_message(PlayerCommand::PlayPreview(s("y.wav")))));
    assert_eq!(m.preview_state, PlaybackState::Paused);
    assert!(matches!(m.handle_message(PlayerCommand::SeekPreview(3)), PlayerAction::SeekPreview(3)));
    assert_eq!(m.preview_state, PlaybackState::Playing);
    m.handle_message(PlayerCommand::PausePreview);
    assert_eq!(m.preview_state, PlaybackState::Paused);
    m.handle_message(PlayerCommand::ToggleMetronome(true));
    assert!(m.metronome);
    m.handle_message(PlayerCommand::UpdateLoop(true, 1, 2));
    assert_eq!((m.loop_enabled, m.loop_start_bits, m.loop_end_bits), (true, 1, 2));
    assert!(matches!(m.handle_message(PlayerCommand::Export(s("out.wav"))), PlayerAction::Export(_)));
}

#[test]
fn same_output_device_changes_nothing() {
    let mut m = AudioManager::for_player(22050);
    m.start_output(true, 48000);
    assert_eq!(m.engine.sample_rate, 22050);
    assert_eq!(m.output_playhead, None);
    assert_eq!(m.loop_end_bits, 0x4180_0000);
}

#[test]
fn metronome_clicks_fall_on_beats_with_bar_accents() {
    let clicks = metronome_clicks(0, 10, 3);
    assert_eq!(clicks, vec![(0, true), (3, false), (6, false), (9, false)]);
    let clicks = metronome_clicks(10, 5, 3);
    assert_eq!(clicks, vec![(2, true)]);
    assert!(metronome_clicks(1, 1, 3).is_empty());
}

#[test]
fn layers_list_leaves_first() {
    let mut e = Engine::new(44100, 0x42F0_0000);
    assert!(e.add_track(TrackBackend::new_bus("bus"), None));
    assert!(e.add_track(TrackBackend::new_audio_track(&s("a")), Some(s("bus"))));
    assert!(e.add_track(TrackBackend::new_audio_track(&s("b")), None));
    assert!(!e.add_track(TrackBackend::new_audio_track(&s("c")), Some(s("a"))));
    assert_eq!(
        e.tree_layers,
        vec![vec![s("a")], vec![s("bus"), s("b")], vec![s("master")]]
    );
    let layers = build_layers(&s("bus"), &e.tracks);
    assert_eq!(layers, vec![vec![s("a")], vec![s("bus")]]);
    e.remove_track(&s("b"));
    assert_eq!(e.tree_layers, vec![vec![s("a")], vec![s("bus")], vec![s("master")]]);
}

#[test]
fn project_commands_mirror_the_track_in_the_engine() {
    let mut state = ToniqueProjectState::new();
    let mut t = TrackCore::from("a", "A");
    t.clips.push(clip("c1"));
    t.clips.push(clip("c2"));
    state.add_track(t);
    state.toggle_solo(s("a"), false);
    let mut m = AudioManager::new();
    for cmd in state.take_commands() {
        let _ = m.handle_message(cmd);
    }
    assert_eq!(clip_ids(&m.engine, "a"), vec![s("c1"), s("c2")]);
    assert_eq!(children(&m.engine, "master"), vec![s("a")]);
    assert_eq!(m.engine.solo_tracks, vec![s("a")]);
    state.delete_track(&s("a"));
    state.update();
    for cmd in state.take_commands() {
        let _ = m.handle_message(cmd);
    }
    assert_eq!(m.engine.tracks.len(), 1);
    assert!(children(&m.engine, "master").is_empty());
}

#[test]
fn midi_clip_outside_block() {
    let c = tonique::engine::MidiClip { id: s("m"), name: s("M"), start: 100, length: 50 };
    assert!(c.in_range(0, 99));
    assert!(!c.in_range(0, 100));
    assert!(!c.in_range(150, 10));
    assert!(c.in_range(151, 10));
}
