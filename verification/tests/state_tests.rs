use tonique::action::{ClipEditAction, ClipEditKind};
use tonique::command::PlayerCommand;
use tonique::state::{LoopState, PlaybackState, ProcessEvent, ToniqueProjectState};
use tonique::track::{ClipCore, TrackCore, TrackSoloState};

fn setup_state() -> ToniqueProjectState {
    ToniqueProjectState::new()
}

fn clip(id: &str, path: &str) -> ClipCore {
    ClipCore {
        id: id.to_string(),
        audio_path: path.to_string(),
        position_bits: 0,
        trim_start_bits: 0,
        trim_end_bits: 0x3F80_0000,
    }
}

fn ids_of(state: &ToniqueProjectState) -> Vec<String> {
    state.tracks().into_iter().map(|t| t.id).collect()
}

#[test]
fn test_add_track() {
    let mut state = setup_state();
    let track = TrackCore::new();

    state.add_track(track.clone());
    assert_eq!(state.track_len(), 1);
    assert_eq!(state.tracks().into_iter().next().unwrap().id, track.id);
}

#[test]
fn test_add_track_at() {
    let mut state = setup_state();
    let track1 = TrackCore::new();

    state.add_track_at(track1.clone(), 0);
    assert_eq!(state.track_len(), 1);
    assert_eq!(state.tracks().into_iter().nth(0).unwrap().id, track1.id);

    let track2 = TrackCore::new();

    state.add_track_at(track2.clone(), 0);
    assert_eq!(state.track_len(), 2);
    assert_eq!(state.tracks().into_iter().nth(0).unwrap().id, track2.id);

    let track3 = TrackCore::new();

    state.add_track_at(track3.clone(), 2);
    assert_eq!(state.track_len(), 3);
    assert_eq!(state.tracks().into_iter().nth(2).unwrap().id, track3.id);
}

#[test]
fn test_delete_track() {
    let mut state = setup_state();
    let track1 = TrackCore::new();
    let track2 = TrackCore::new();
    state.add_track(track1.clone());
    state.add_track(track2.clone());
    assert_eq!(state.track_len(), 2);

    state.delete_track(&track1.id);
    // Should be deleted after state update
    assert_eq!(state.track_len(), 2);
    state.update();
    assert_eq!(state.track_len(), 1);
    state.delete_track(&track2.id);
    state.update();
    assert_eq!(state.track_len(), 0);
    // deleting a non existant track should no raise errors
    state.delete_track(&"invalid_id".to_string());
}

#[test]
fn new_track_has_fresh_uuid_id() {
    let a = TrackCore::new();
    let b = TrackCore::new();
    assert_eq!(a.id.len(), 36);
    assert_eq!(b.id.len(), 36);
    assert_ne!(a.id, b.id);
    for (i, c) in a.id.chars().enumerate() {
        if i == 8 || i == 13 || i == 18 || i == 23 {
            assert_eq!(c, '-');
        } else {
            assert!(c.is_ascii_hexdigit() && !c.is_ascii_uppercase());
        }
    }
    assert_eq!(a.id.chars().nth(14), Some('4'));
    assert_eq!(a.mutable.name, "# Audio Track");
    assert_eq!(a.volume_bits, 0x3F80_0000);
}

#[test]
fn new_state_is_empty_and_paused() {
    let state = setup_state();
    assert_eq!(state.track_len(), 0);
    assert!(!state.can_undo());
    assert!(!state.can_redo());
    assert_eq!(state.playback_state(), PlaybackState::Paused);
    assert_eq!(state.preview_playback_state(), PlaybackState::Paused);
    assert_eq!(state.master_track().id, "master");
    assert_eq!(state.bpm(), 0x42F0_0000);
    assert_eq!(state.playback_position(), 0);
    assert_eq!(state.loop_state(), LoopState { enabled: false, start_bits: 0, end_bits: 0x4180_0000 });
}

#[test]
fn undo_add_track_removes_it_and_redo_restores_it() {
    let mut state = setup_state();
    let track = TrackCore::from("t1", "Drums");
    state.add_track(track);
    assert_eq!(ids_of(&state), vec!["t1".to_string()]);
    state.undo();
    assert_eq!(state.track_len(), 0);
    assert!(!state.has_track(&"t1".to_string()));
    assert!(state.can_redo());
    state.redo();
    assert_eq!(ids_of(&state), vec!["t1".to_string()]);
    assert_eq!(state.track(&"t1".to_string()).unwrap().mutable.name, "Drums");
}

#[test]
fn undo_delete_track_puts_it_back_in_place() {
    let mut state = setup_state();
    state.add_track(TrackCore::from("a", "A"));
    state.add_track(TrackCore::from("b", "B"));
    state.add_track(TrackCore::from("c", "C"));
    state.delete_track(&"b".to_string());
    state.update();
    assert_eq!(ids_of(&state), vec!["a".to_string(), "c".to_string()]);
    state.undo();
    assert_eq!(ids_of(&state), vec!["a".to_string(), "b".to_string(), "c".to_string()]);
}

#[test]
fn duplicate_track_comes_right_after_and_undo_removes_copy() {
    let mut state = setup_state();
    state.add_track(TrackCore::from("a", "A"));
    state.add_track(TrackCore::from("b", "B"));
    state.duplicate_track(&"a".to_string());
    let ids = ids_of(&state);
    assert_eq!(ids.len(), 3);
    assert_eq!(ids[0], "a");
    assert_ne!(ids[1], "a");
    assert_eq!(ids[1].len(), 36);
    assert_eq!(ids[2], "b");
    state.undo();
    assert_eq!(ids_of(&state), vec!["a".to_string(), "b".to_string()]);
}

#[test]
fn commit_volume_is_undone_to_old_volume() {
    let mut state = setup_state();
    state.add_track(TrackCore::from("a", "A"));
    state.set_volume("a".to_string(), 0x3F00_0000);
    assert_eq!(state.track(&"a".to_string()).unwrap().volume_bits, 0x3F00_0000);
    state.commit_volume("a".to_string(), 0x3F80_0000, 0x3F00_0000);
    state.undo();
    assert_eq!(state.track(&"a".to_string()).unwrap().volume_bits, 0x3F80_0000);
    state.redo();
    assert_eq!(state.track(&"a".to_string()).unwrap().volume_bits, 0x3F00_0000);
}

#[test]
fn new_action_clears_redo_stack() {
    let mut state = setup_state();
    state.add_track(TrackCore::from("a", "A"));
    state.undo();
    assert!(state.can_redo());
    state.add_track(TrackCore::from("b", "B"));
    assert!(!state.can_redo());
    assert!(state.can_undo());
}

#[test]
fn batch_is_undone_in_one_step() {
    let mut state = setup_state();
    state.begin_batch();
    state.add_track(TrackCore::from("a", "A"));
    state.add_track(TrackCore::from("b", "B"));
    assert_eq!(state.track_len(), 0);
    state.commmit_batch();
    assert_eq!(ids_of(&state), vec!["a".to_string(), "b".to_string()]);
    state.undo();
    assert_eq!(state.track_len(), 0);
    assert!(!state.can_undo());
}

#[test]
fn solo_without_modifier_is_exclusive_and_toggles_off() {
    let mut state = setup_state();
    state.add_track(TrackCore::from("a", "A"));
    state.add_track(TrackCore::from("b", "B"));
    state.toggle_solo("a".to_string(), false);
    let refs = state.tracks();
    assert!(matches!(refs[0].solo, TrackSoloState::Solo));
    assert!(matches!(refs[1].solo, TrackSoloState::Soloing));
    assert!(!refs[0].disabled());
    assert!(refs[1].disabled());
    state.toggle_solo("b".to_string(), false);
    let refs = state.tracks();
    assert!(matches!(refs[0].solo, TrackSoloState::Soloing));
    assert!(matches!(refs[1].solo, TrackSoloState::Solo));
    state.toggle_solo("b".to_string(), false);
    let refs = state.tracks();
    assert!(matches!(refs[0].solo, TrackSoloState::NotSoloing));
    assert!(matches!(refs[1].solo, TrackSoloState::NotSoloing));
}

#[test]
fn solo_toggled_twice_with_modifier_gives_back_solo_set() {
    let mut state = setup_state();
    state.add_track(TrackCore::from("a", "A"));
    state.add_track(TrackCore::from("b", "B"));
    state.toggle_solo("a".to_string(), true);
    state.toggle_solo("b".to_string(), true);
    state.toggle_solo("b".to_string(), true);
    let refs = state.tracks();
    assert!(matches!(refs[0].solo, TrackSoloState::Solo));
    assert!(matches!(refs[1].solo, TrackSoloState::Soloing));
}

#[test]
fn mute_disables_unless_soloed() {
    let mut state = setup_state();
    state.add_track(TrackCore::from("a", "A"));
    state.set_mute("a".to_string(), true);
    assert!(state.tracks()[0].disabled());
    state.toggle_solo("a".to_string(), false);
    assert!(!state.tracks()[0].disabled());
}

#[test]
fn delete_clips_then_undo_restores_clips() {
    let mut state = setup_state();
    state.add_track(TrackCore::from("a", "A"));
    let edit = ClipEditAction::new(
        ClipEditKind::AddClips,
        vec![("a".to_string(), vec![clip("c1", "x.wav"), clip("c2", "y.wav")])],
        vec![],
    );
    state.apply_clip_edit(edit);
    assert_eq!(state.track(&"a".to_string()).unwrap().clips.len(), 2);
    assert_eq!(state.track_from_clip_id(&"c2".to_string()).unwrap().id, "a");
    state.delete_clips(&vec!["c1".to_string()]);
    let clips = state.track(&"a".to_string()).unwrap().clips;
    assert_eq!(clips.len(), 1);
    assert_eq!(clips[0].id, "c2");
    state.undo();
    let clips = state.track(&"a".to_string()).unwrap().clips;
    assert_eq!(clips.len(), 2);
    let mut ids: Vec<String> = clips.into_iter().map(|c| c.id).collect();
    ids.sort();
    assert_eq!(ids, vec!["c1".to_string(), "c2".to_string()]);
}

#[test]
fn clip_edit_undo_takes_added_clips_out() {
    let mut state = setup_state();
    state.add_track(TrackCore::from("a", "A"));
    state.apply_clip_edit(ClipEditAction::new(
        ClipEditKind::AddClips,
        vec![("a".to_string(), vec![clip("c1", "x.wav")])],
        vec![],
    ));
    state.apply_clip_edit(ClipEditAction::new(
        ClipEditKind::MoveClip,
        vec![("a".to_string(), vec![ClipCore { position_bits: 0x4000_0000, ..clip("c1", "x.wav") }])],
        vec![("a".to_string(), vec![clip("c1", "x.wav")])],
    ));
    let t = state.track(&"a".to_string()).unwrap();
    assert_eq!(t.clips.len(), 1);
    assert_eq!(t.clips[0].position_bits, 0x4000_0000);
    state.undo();
    let t = state.track(&"a".to_string()).unwrap();
    assert_eq!(t.clips.len(), 1);
    assert_eq!(t.clips[0].position_bits, 0);
}

#[test]
fn transport_commands_are_sent_to_engine() {
    let mut state = setup_state();
    state.play();
    assert_eq!(state.playback_state(), PlaybackState::Playing);
    state.pause();
    state.toggle_metronome();
    assert!(state.metronome());
    state.seek_preview(42);
    assert_eq!(state.preview_position(), 42);
    assert_eq!(state.preview_playback_state(), PlaybackState::Playing);
    state.set_bpm(0x42C8_0000);
    let cmds = state.take_commands();
    assert_eq!(cmds.len(), 5);
    assert!(matches!(cmds[0], PlayerCommand::Play));
    assert!(matches!(cmds[1], PlayerCommand::Pause));
    assert!(matches!(cmds[2], PlayerCommand::ToggleMetronome(true)));
    assert!(matches!(cmds[3], PlayerCommand::SeekPreview(42)));
    assert!(matches!(cmds[4], PlayerCommand::UpdateBpm(0x42C8_0000)));
    assert!(state.take_commands().is_empty());
}

#[test]
fn loop_changes_only_when_its_message_was_sent() {
    let mut state = setup_state();
    let toggled = state.toggled_loop();
    assert_eq!(toggled, LoopState { enabled: true, start_bits: 0, end_bits: 0x4180_0000 });
    state.toggle_loop(false);
    assert!(!state.loop_state().enabled);
    state.toggle_loop(true);
    assert!(state.loop_state().enabled);
    let moved = LoopState { enabled: true, start_bits: 0x3F80_0000, end_bits: 0x40A0_0000 };
    state.update_loop(moved, false);
    assert_eq!(state.loop_state().start_bits, 0);
    state.update_loop(moved, true);
    assert_eq!(state.loop_state(), moved);
    assert!(state.take_commands().is_empty());
}

#[test]
fn engine_messages_update_transport() {
    let mut state = setup_state();
    state.handle_message(ProcessEvent::PreviewPos(7));
    assert_eq!(state.preview_position(), 7);
    state.handle_message(ProcessEvent::PlaybackPos(0x4080_0000));
    assert_eq!(state.playback_state(), PlaybackState::Playing);
    assert_eq!(state.playback_position(), 0x4080_0000);
    assert_eq!(state.preview_position(), 7);
}

#[test]
fn add_track_sends_add_track_command() {
    let mut state = setup_state();
    state.add_track(TrackCore::from("a", "A"));
    let cmds = state.take_commands();
    assert!(cmds.iter().any(|c| matches!(c, PlayerCommand::AddTrack(id) if id == "a")));
}

#[test]
fn effects_are_added_and_removed_by_index() {
    let mut state = setup_state();
    state.add_track(TrackCore::from("a", "A"));
    state.add_effect(&"a".to_string(), "e1".to_string(), 0);
    state.add_effect(&"a".to_string(), "e2".to_string(), 1);
    state.add_effect(&"a".to_string(), "e0".to_string(), 0);
    assert_eq!(
        state.effects(&"a".to_string()).unwrap(),
        vec!["e0".to_string(), "e1".to_string(), "e2".to_string()]
    );
    state.remove_effects(&"a".to_string(), &vec![0, 2]);
    assert_eq!(state.effects(&"a".to_string()).unwrap(), vec!["e1".to_string()]);
}

#[test]
fn selection_follows_select_and_deselect() {
    let mut state = setup_state();
    state.add_track(TrackCore::from("a", "A"));
    state.add_track(TrackCore::from("b", "B"));
    state.select_track(&"b".to_string());
    assert_eq!(state.selected_track().unwrap().id, "b");
    assert_eq!(state.selected_tracks(), vec!["b".to_string()]);
    state.deselect();
    assert!(state.selected_track().is_none());
}

#[test]
fn track_mut_commit_is_undoable() {
    let mut state = setup_state();
    let mut track = TrackCore::new();
    track.id = "a".to_string();
    state.add_track(track);
    let mut fields = state.track_mut(&"a".to_string()).unwrap();
    fields.name = "Bass".to_string();
    state.set_track_mut(&"a".to_string(), fields);
    state.commit_track_mut(&"a".to_string());
    assert_eq!(state.track(&"a".to_string()).unwrap().mutable.name, "Bass");
    state.undo();
    assert_eq!(state.track(&"a".to_string()).unwrap().mutable.name, "# Audio Track");
}

#[test]
fn master_track_stays_out_of_the_list() {
    let mut state = setup_state();
    state.add_track(TrackCore::from("a", "A"));
    state.duplicate_track(&"a".to_string());
    state.delete_track(&"master".to_string());
    state.update();
    state.undo();
    state.redo();
    assert_eq!(state.master_track().id, "master");
    assert!(!ids_of(&state).contains(&"master".to_string()));
    assert_eq!(state.track_len(), 2);
}

#[test]
fn space_bar_toggles_playback() {
    let mut state = setup_state();
    state.toggle_playback();
    assert_eq!(state.playback_state(), PlaybackState::Playing);
    state.toggle_playback();
    assert_eq!(state.playback_state(), PlaybackState::Paused);
    let cmds = state.take_commands();
    assert_eq!(cmds.len(), 2);
    assert!(matches!(cmds[0], PlayerCommand::Play));
    assert!(matches!(cmds[1], PlayerCommand::Pause));
}

#[test]
fn batch_of_adds_keeps_call_order_after_existing_tracks() {
    let mut state = setup_state();
    state.add_track(TrackCore::from("x", "X"));
    state.begin_batch();
    state.add_track(TrackCore::from("a", "A"));
    state.add_track(TrackCore::from("b", "B"));
    state.add_track(TrackCore::from("c", "C"));
    state.commmit_batch();
    assert_eq!(
        ids_of(&state),
        vec!["x".to_string(), "a".to_string(), "b".to_string(), "c".to_string()]
    );
    assert!(state.can_undo());
    assert!(!state.can_redo());
    state.undo();
    assert_eq!(ids_of(&state), vec!["x".to_string()]);
    assert!(state.can_redo());
}

#[test]
fn overlap_fix_keeps_cuts_and_drops() {
    let clips = vec![clip("a", "a.wav"), clip("b", "b.wav"), clip("c", "c.wav"), clip("n", "n.wav")];
    let lefts = vec![clip("aL", "a.wav"), clip("bL", "b.wav"), clip("cL", "c.wav"), clip("nL", "n.wav")];
    let rights = vec![clip("aR", "a.wav"), clip("bR", "b.wav"), clip("cR", "c.wav"), clip("nR", "n.wav")];
    let (kept, deleted, created) = tonique::track::fix_overlaps(
        &clips,
        &"n".to_string(),
        &vec![],
        &vec![false, true, true, true],
        &vec![false, true, false, true],
        &vec![false, true, false, true],
        &lefts,
        &rights,
    );
    let ids = |v: Vec<ClipCore>| v.into_iter().map(|c| c.id).collect::<Vec<String>>();
    assert_eq!(ids(kept), vec!["a", "bL", "bR", "n"]);
    assert_eq!(ids(deleted), vec!["b", "c"]);
    assert_eq!(ids(created), vec!["bL", "bR"]);
}
