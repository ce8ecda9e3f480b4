use upalla::devices::{DeviceInfo, DeviceLists};
use upalla::gui::{AppGuiState, Switches, SyncAction, UpallaApp};
use upalla::window::{AppState, DeviceMenus, Picker, SharedState, Shown};

fn device(name: &str, description: &str) -> DeviceInfo {
    DeviceInfo { name: name.to_string(), description: description.to_string() }
}

fn both() -> Switches {
    Switches { playback_enabled: true, recording_enabled: true }
}

fn open_window() -> Shown {
    Shown {
        sink_index: 0,
        source_index: 0,
        playback_enabled: true,
        recording_enabled: true,
        recording_active: false,
    }
}

#[test]
fn menus_list_the_default_first() {
    let menus = DeviceMenus::of(&DeviceLists {
        sinks: vec![device("a", "Speakers"), device("b", "Headset")],
        sources: vec![],
        default_sink: "b".to_string(),
        default_source: "mic".to_string(),
    });
    assert_eq!(menus.sinks, vec!["Default (Headset)", "Speakers", "Headset"]);
    assert_eq!(menus.sources, vec!["Default (mic)"], "an unlisted default shows by its name");
}

#[test]
fn a_look_passes_the_users_changes_on() {
    let mut state = SharedState::new();
    state.sink_descriptions = vec!["Default".to_string(), "Speakers".to_string()];
    let mut shown = open_window();
    let mut switches = both();
    let mut mode = 0;
    shown.sink_index = 1;
    shown.source_index = 1;
    shown.playback_enabled = false;
    let chosen = state.update_levels(&mut shown, &mut switches, &mut mode);
    assert_eq!(chosen.0.as_deref(), Some("Speakers"));
    assert_eq!(chosen.1, None, "no source has that line");
    assert_eq!(switches, Switches { playback_enabled: false, recording_enabled: true });
    assert_eq!((state.previous_sink_idx, state.previous_source_idx), (1, 1));
    assert!(state.previous_pb_bypass && !state.previous_rec_bypass);
}

#[test]
fn a_look_shows_what_was_changed_elsewhere() {
    let mut state = SharedState::new();
    let mut shown = open_window();
    let mut switches = Switches { playback_enabled: true, recording_enabled: false };
    let mut mode = 0;
    state.last_recording_detected = true;
    state.update_levels(&mut shown, &mut switches, &mut mode);
    assert!(shown.playback_enabled && !shown.recording_enabled);
    assert!(shown.recording_active, "without an override the box shows what was detected");
    assert_eq!(switches, Switches { playback_enabled: true, recording_enabled: false });
}

#[test]
fn a_second_look_is_quiet() {
    let mut state = SharedState::new();
    state.sink_descriptions = vec!["Default".to_string(), "Speakers".to_string()];
    state.last_recording_detected = true;
    let mut shown = open_window();
    shown.sink_index = 1;
    shown.recording_enabled = false;
    shown.recording_active = true;
    let mut switches = Switches { playback_enabled: false, recording_enabled: true };
    let mut mode = 1;
    state.update_levels(&mut shown, &mut switches, &mut mode);
    assert_eq!(mode, 0, "an override that agrees is given up");
    let (window, filter) = (shown, switches);
    let chosen = state.update_levels(&mut shown, &mut switches, &mut mode);
    assert_eq!(chosen, (None, None));
    assert_eq!((shown, switches, mode), (window, filter, 0));
    assert_eq!(shown.playback_enabled, switches.playback_enabled);
    assert_eq!(shown.recording_enabled, switches.recording_enabled);
}

#[test]
fn an_override_that_disagrees_is_kept() {
    let mut state = SharedState::new();
    let mut shown = open_window();
    shown.recording_active = true;
    let mut switches = both();
    let mut mode = 1;
    state.update_levels(&mut shown, &mut switches, &mut mode);
    assert_eq!(mode, 1);
    assert!(shown.recording_active);
}

#[test]
fn one_bypass_for_both_chains() {
    let mut state = AppState::new();
    let mut switches = both();
    let default = Picker { active: None, text: None };
    let headset = Picker { active: Some(2), text: Some("Headset".to_string()) };
    let (mut playback, mut recording) = (false, false);
    let chosen =
        state.update_levels(&headset, &default, &mut playback, &mut recording, &mut switches);
    assert_eq!(chosen.0.as_deref(), Some("Headset"));
    assert_eq!(chosen.1, None);
    assert!(switches.bypass(), "neither box is checked");
    let chosen =
        state.update_levels(&headset, &default, &mut playback, &mut recording, &mut switches);
    assert_eq!(chosen, (None, None));
    switches.set_bypass(false);
    state.update_levels(&default, &default, &mut playback, &mut recording, &mut switches);
    assert!(playback && recording, "the filter was enabled elsewhere");
    assert_eq!(state.previous_sink_idx, 0);
}

#[test]
fn a_window_and_the_filter_exchange_changes() {
    let mut app = UpallaApp::new(false, 0);
    let mut state = AppGuiState::new(0u32);
    state.selected_sink = "speakers".to_string();
    state.bypass = true;
    let changes = app.logic(&mut state, false);
    assert_eq!(changes.sink.as_deref(), Some("speakers"));
    assert_eq!(changes.source, None, "nothing is selected yet");
    assert_eq!(changes.bypass, SyncAction::Push(true));
    assert!(app.previous_bypass);
    let changes = app.logic(&mut state, false);
    assert_eq!(changes.sink, None);
    assert_eq!(changes.bypass, SyncAction::Pull(false));
    assert!(!state.bypass && !app.previous_bypass);
    assert_eq!(app.logic(&mut state, false).bypass, SyncAction::Keep);
}

#[test]
fn a_status_counts_while_the_window_is_open() {
    let mut state = SharedState::new();
    state.take_status(true, false);
    assert!(!state.last_recording_detected, "a closed window takes no status");
    state.take_status(true, true);
    assert!(state.last_recording_detected);
    state.take_status(false, false);
    assert!(state.last_recording_detected);
    state.take_status(false, true);
    assert!(!state.last_recording_detected);
}
