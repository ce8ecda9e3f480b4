use image::{ImageFormat, RgbaImage};
use std::io::Cursor;
use upalla::clock::NANOS_PER_SEC;
use upalla::devices::{DeviceInfo, DeviceLists, DEFAULT_SINK, DEFAULT_SOURCE};
use upalla::gui::{
    active_step, create_tray, mirrored, override_mode, render_gui, selection_moved, shown_bypass,
    sync_bypass, tray_action, tray_menu, ActiveStep, AppDelegate, AppGuiState, Switches, SyncAction, TrayAction,
    TrayItem, UpallaApp, WindowInput,
};
use upalla::icon::{rgba_to_argb, tray_icon, tray_rgba, window_icon};
use upalla::layout::{
    layout_controls, BAR_W, BTN_W, CONTENT_H, DB_W, GAP, LABEL_W, MARGIN, POPUP_W, RMS_TITLE_W,
    ROW_H, WINDOW_H, WINDOW_W,
};
use upalla::mac::Cmd;

fn device(name: &str, description: &str) -> DeviceInfo {
    DeviceInfo { name: name.to_string(), description: description.to_string() }
}

#[test]
fn switches_bypass_chains() {
    let mut s = Switches { playback_enabled: true, recording_enabled: true };
    assert!(s.all_enabled() && !s.bypass());
    s.set_playback_bypass(true);
    assert!(s.playback_bypass() && !s.recording_bypass() && !s.bypass());
    s.toggle_all();
    assert!(s.all_enabled(), "one disabled chain makes the entry enable both");
    s.toggle_all();
    assert!(s.bypass());
    s.set_recording_bypass(false);
    assert!(!s.recording_bypass() && s.playback_bypass());
    s.set_bypass(false);
    assert!(s.all_enabled());
}

#[test]
fn the_window_and_the_filter_come_to_agree() {
    let mut previous = false;
    assert_eq!(sync_bypass(true, &mut previous, false), SyncAction::Push(true));
    assert!(previous);
    assert_eq!(sync_bypass(true, &mut previous, false), SyncAction::Pull(false));
    assert!(!previous);
    assert_eq!(sync_bypass(false, &mut previous, false), SyncAction::Keep);
    assert_eq!(sync_bypass(true, &mut previous, true), SyncAction::Push(true));
    assert!(shown_bypass(false, false));
    assert!(!shown_bypass(true, false));
}

#[test]
fn the_tray_menu_has_a_line_above_quit() {
    for (playback_enabled, recording_enabled) in [(true, true), (true, false), (false, true)] {
        let mut switches = Switches { playback_enabled, recording_enabled };
        let items = tray_menu(&switches);
        assert_eq!(items.len(), 4);
        match (&items[0], &items[1], &items[2], &items[3]) {
            (
                TrayItem::Plain { label: show, action: TrayAction::OpenWindow },
                TrayItem::Check { label: enabled, checked, action: TrayAction::ToggleBypass },
                TrayItem::Separator,
                TrayItem::Plain { label: quit, action: TrayAction::Quit },
            ) => {
                assert_eq!((&show[..], &enabled[..], &quit[..]), ("Show", "Enabled", "Quit"));
                assert_eq!(*checked, playback_enabled && recording_enabled);
            }
            _ => panic!("show, enabled, a line, quit"),
        }
        switches.toggle_all();
        assert_eq!(switches.all_enabled(), !(playback_enabled && recording_enabled));
    }
}

#[test]
fn moving_the_selection_chooses_a_device() {
    let mut previous = 0;
    assert_eq!(selection_moved(0, &mut previous, 3), None);
    assert_eq!(selection_moved(2, &mut previous, 3), Some(2));
    assert_eq!(selection_moved(2, &mut previous, 3), None);
    assert_eq!(selection_moved(0, &mut previous, 3), None);
    assert_eq!(selection_moved(3, &mut previous, 3), None);
    assert_eq!(selection_moved(-1, &mut previous, 3), None);
    assert_eq!(previous, -1);
}

#[test]
fn an_override_is_released_once_it_agrees() {
    assert_eq!(override_mode(None), 0);
    assert_eq!(override_mode(Some(true)), 1);
    assert_eq!(override_mode(Some(false)), 2);
    assert_eq!(active_step(0, false, true), ActiveStep::Show(true));
    assert_eq!(active_step(1, true, true), ActiveStep::Release);
    assert_eq!(active_step(2, false, true), ActiveStep::Keep);
    assert_eq!(active_step(9, true, true), ActiveStep::Keep);
}

#[test]
fn a_drawn_window_takes_the_users_choices() {
    let mut state = AppGuiState::new(0u32);
    assert!(state.refresh_devices);
    state.set_devices(DeviceLists {
        sinks: vec![device("a", "Alpha"), device("b", "Beta")],
        sources: vec![device("m", "Mic")],
        default_sink: "b".to_string(),
        default_source: "x".to_string(),
    });
    assert_eq!(state.default_sink_display, "Beta");
    assert_eq!(state.default_source_display, "x");
    assert_eq!(state.selected_sink, DEFAULT_SINK);
    assert_eq!(state.selected_source, DEFAULT_SOURCE);

    let view = render_gui(&state);
    assert_eq!((view.sink_at, view.source_at, view.enabled), (0, 0, true));
    assert_eq!(view.sinks[0].label, "Default (Beta)");
    state.apply_input(&view, &WindowInput { sink_at: 2, source_at: 9, enabled: false, refresh: true });
    assert_eq!(state.selected_sink, "b");
    assert_eq!(state.selected_source, DEFAULT_SOURCE);
    assert!(state.bypass && state.refresh_devices);

    let view = render_gui(&state);
    assert_eq!(view.sink_at, 2);
    let same = WindowInput { sink_at: view.sink_at, source_at: view.source_at, enabled: view.enabled, refresh: false };
    state.apply_input(&view, &same);
    assert_eq!(state.selected_sink, "b");
    assert!(state.bypass);

    state.selected_sink = "gone".to_string();
    let view = render_gui(&state);
    let same = WindowInput { sink_at: view.sink_at, source_at: view.source_at, enabled: true, refresh: false };
    state.apply_input(&view, &same);
    assert_eq!(state.selected_sink, DEFAULT_SINK, "a device that is gone gives way to the default");
}

#[test]
fn devices_are_listed_once_a_second_and_on_request() {
    let mut app = UpallaApp::new(true, 10);
    assert!(app.previous_bypass);
    let mut state = AppGuiState::new(0u32);
    assert!(app.refresh_due(&mut state, 11), "the first list is asked for");
    assert!(!state.refresh_devices);
    assert!(!app.refresh_due(&mut state, 9 + NANOS_PER_SEC));
    assert!(app.refresh_due(&mut state, 10 + NANOS_PER_SEC));
    assert!(!app.refresh_due(&mut state, 11 + NANOS_PER_SEC));
    assert_eq!(app.sink_change(&"a".to_string()), Some("a".to_string()));
    assert_eq!(app.sink_change(&"a".to_string()), None);
    assert_eq!(app.source_change(&String::new()), None);
    assert_eq!(app.source_change(&"m".to_string()), Some("m".to_string()));
    assert_eq!(app.previous_sink, "a");
}

#[test]
fn tray_clicks_ask_for_actions() {
    let (ids, entries) = create_tray(true);
    assert_eq!(entries.len(), 3);
    assert_eq!((entries[0].label.as_str(), entries[1].label.as_str(), entries[2].label.as_str()), ("Show", "Enabled", "Quit"));
    assert_eq!(entries[1].checked, Some(true));
    assert_eq!(tray_action(&ids, &entries[0].id, false, false), TrayAction::OpenWindow);
    assert_eq!(tray_action(&ids, &entries[0].id, false, true), TrayAction::Ignore);
    assert_eq!(tray_action(&ids, &entries[0].id, true, false), TrayAction::Ignore);
    assert_eq!(tray_action(&ids, &entries[1].id, true, false), TrayAction::ToggleBypass);
    assert_eq!(tray_action(&ids, &entries[2].id, false, false), TrayAction::Quit);
    assert_eq!(tray_action(&ids, &"else".to_string(), false, false), TrayAction::Ignore);
    let mut last = true;
    assert_eq!(mirrored(false, &mut last), Some(false));
    assert_eq!(mirrored(false, &mut last), None);
}

#[test]
fn boxes_of_the_macos_window_tell_the_engine() {
    let mut d = AppDelegate::new();
    assert!(d.pb_enabled && d.rec_enabled);
    assert!(matches!(d.apply_playback(false), Cmd::SetPlaybackBypass(true)));
    assert!(!d.pb_enabled && d.rec_enabled);
    assert!(matches!(d.apply_recording(true), Cmd::SetRecordingBypass(false)));
    assert!(d.rec_enabled);
}

#[test]
fn the_window_fits_its_controls() {
    let l = layout_controls();
    assert_eq!(CONTENT_H, 246);
    assert_eq!((WINDOW_W, WINDOW_H), (337, 286));
    assert_eq!(LABEL_W + GAP + POPUP_W + GAP + BTN_W, RMS_TITLE_W + GAP + BAR_W + GAP + DB_W);
    assert_eq!(l.output.first.y, WINDOW_H - MARGIN - ROW_H);
    assert_eq!(l.output.second.x, 81);
    assert_eq!(l.input.first.y, l.output.first.y - ROW_H - GAP);
    assert_eq!(l.playback_header.first.y, l.input.first.y - ROW_H - 2 * GAP);
    assert_eq!(l.recording_header.first.y, l.playback_filtered.first.y - ROW_H - 2 * GAP);
    assert_eq!(l.recording_filtered.first.y, MARGIN);
    assert_eq!(l.playback_raw.third.x + l.playback_raw.third.w, WINDOW_W - MARGIN);
}

fn png(pixels: &[u8], width: u32, height: u32) -> Vec<u8> {
    let image = RgbaImage::from_raw(width, height, pixels.to_vec()).expect("size");
    let mut file = Cursor::new(Vec::new());
    image.write_to(&mut file, ImageFormat::Png).expect("encode");
    file.into_inner()
}

#[test]
fn icons_are_decoded_and_reordered() {
    let pixels = [1, 2, 3, 4, 5, 6, 7, 8];
    let file = png(&pixels, 2, 1);
    let tray = tray_icon(&file).expect("an image");
    assert_eq!((tray.width, tray.height), (2, 1));
    assert_eq!(tray.data, vec![4, 1, 2, 3, 8, 5, 6, 7]);
    let window = window_icon(&file).expect("an image");
    assert_eq!((window.width, window.height), (2, 1));
    assert_eq!(window.data, pixels);
    assert_eq!(tray_rgba(&file), Some(pixels.to_vec()));
    assert!(tray_icon(b"no image").is_none());
    assert!(window_icon(b"no image").is_none());
    assert!(tray_rgba(b"no image").is_none());
    assert_eq!(rgba_to_argb(&[1, 2, 3, 4, 5, 6]), vec![4, 1, 2, 3]);
}
