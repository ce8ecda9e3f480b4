//! The state behind the windows and tray menus.
use vstd::prelude::*;
use vstd::string::*;

use crate::clock::{elapsed, time_since, NANOS_PER_SEC};
use crate::devices::{
    combo_entries, combo_pick, combo_selected, default_display, display_of, lists_entries,
    shows_selected, ComboEntry, DeviceInfo, DeviceLists, DEFAULT_SINK, DEFAULT_SOURCE,
};
use crate::mac::Cmd;

verus! {

/// Which chains of the filter are enabled.
#[derive(Clone, Copy, Debug, PartialEq, Eq, Structural)]
pub struct Switches {
    pub playback_enabled: bool,
    pub recording_enabled: bool,
}

impl Switches {
    /// Bypasses both chains, or neither.
    pub fn set_bypass(&mut self, bypass: bool)
        ensures
            final(self).playback_enabled == !bypass,
            final(self).recording_enabled == !bypass,
    {
        self.playback_enabled = !bypass;
        self.recording_enabled = !bypass;
    }

    /// Whether both chains are bypassed.
    pub fn bypass(&self) -> (bypass: bool)
        ensures
            bypass == (!self.playback_enabled && !self.recording_enabled),
    {
        !self.playback_enabled && !self.recording_enabled
    }

    /// Bypasses the playback chain, or not.
    pub fn set_playback_bypass(&mut self, bypass: bool)
        ensures
            final(self).playback_enabled == !bypass,
            final(self).recording_enabled == old(self).recording_enabled,
    {
        self.playback_enabled = !bypass;
    }

    /// Whether the playback chain is bypassed.
    pub fn playback_bypass(&self) -> (bypass: bool)
        ensures
            bypass == !self.playback_enabled,
    {
        !self.playback_enabled
    }

    /// Bypasses the recording chain, or not.
    pub fn set_recording_bypass(&mut self, bypass: bool)
        ensures
            final(self).recording_enabled == !bypass,
            final(self).playback_enabled == old(self).playback_enabled,
    {
        self.recording_enabled = !bypass;
    }

    /// Whether the recording chain is bypassed.
    pub fn recording_bypass(&self) -> (bypass: bool)
        ensures
            bypass == !self.recording_enabled,
    {
        !self.recording_enabled
    }

    /// Whether the one "Enabled" entry of a tray menu is checked.
    pub fn all_enabled(&self) -> (checked: bool)
        ensures
            checked == (self.playback_enabled && self.recording_enabled),
    {
        self.playback_enabled && self.recording_enabled
    }

    /// A click on the one "Enabled" entry of a tray menu: unless both chains are enabled, both
    /// become so.
    pub fn toggle_all(&mut self)
        ensures
            final(self).playback_enabled == !(old(self).playback_enabled && old(
                self).recording_enabled),
            final(self).recording_enabled == final(self).playback_enabled,
    {
        let enabled = !self.all_enabled();
        self.playback_enabled = enabled;
        self.recording_enabled = enabled;
    }
}

/// What is to be done about a bypass that a window shows and the filter follows.
#[derive(Clone, Copy, Debug, PartialEq, Eq, Structural)]
pub enum SyncAction {
    /// They agree.
    Keep,
    /// The user has changed what is shown; the filter follows.
    Push(bool),
    /// The filter was changed elsewhere; what is shown follows.
    Pull(bool),
}

/// What is to be done, given what is shown, what was shown before and what the filter does. A change
/// by the user wins over a change elsewhere.
pub open spec fn sync_action(shown: bool, previous: bool, filter: bool) -> SyncAction {
    if shown != previous {
        SyncAction::Push(shown)
    } else if shown != filter {
        SyncAction::Pull(filter)
    } else {
        SyncAction::Keep
    }
}

/// What is shown, and what the filter does, once an action was carried out.
pub open spec fn synced(shown: bool, filter: bool, action: SyncAction) -> (bool, bool) {
    match action {
        SyncAction::Keep => (shown, filter),
        SyncAction::Push(b) => (shown, b),
        SyncAction::Pull(b) => (b, filter),
    }
}

/// Decides how a shown bypass and the filter's are brought together, and takes what is then shown as
/// the new `previous`.
pub fn sync_bypass(shown: bool, previous: &mut bool, filter: bool) -> (action: SyncAction)
    ensures
        action == sync_action(shown, *old(previous), filter),
        *final(previous) == synced(shown, filter, action).0,
{
    if shown != *previous {
        *previous = shown;
        SyncAction::Push(shown)
    } else if shown != filter {
        *previous = filter;
        SyncAction::Pull(filter)
    } else {
        SyncAction::Keep
    }
}

/// After every exchange the window and the filter agree, and a second exchange changes nothing.
pub proof fn lemma_sync_agrees(shown: bool, previous: bool, filter: bool)
    ensures
        ({
            let action = sync_action(shown, previous, filter);
            let (s, f) = synced(shown, filter, action);
            s == f && sync_action(s, s, f) == SyncAction::Keep && (shown != previous ==> s == shown)
        }),
{
}

/// Whether a window with one checkbox per chain shows a bypass: it does when neither is checked.
pub fn shown_bypass(playback_checked: bool, recording_checked: bool) -> (bypass: bool)
    ensures
        bypass == !(playback_checked || recording_checked),
{
    !(playback_checked || recording_checked)
}

/// The line of a device menu to switch to, if the selection has moved to a line that names a device:
/// line zero stands for the default, and `lines` is their number.
pub open spec fn line_to_switch_to(at: i32, previous: i32, lines: nat) -> Option<usize> {
    if at != previous && 0 < at < lines {
        Some(at as usize)
    } else {
        None
    }
}

/// The line of a device menu to switch to, if any.
pub fn selection_moved(at: i32, previous: &mut i32, lines: usize) -> (chosen: Option<usize>)
    ensures
        *final(previous) == at,
        chosen == line_to_switch_to(at, *old(previous), lines as nat),
{
    if at == *previous {
        return None;
    }
    *previous = at;
    if at > 0 && (at as usize) < lines {
        Some(at as usize)
    } else {
        None
    }
}

/// The number that an override of the recording capture is stored as: on, off, or as detected.
pub fn override_mode(forced: Option<bool>) -> (mode: u8)
    ensures
        mode == (match forced {
            Some(true) => 1u8,
            Some(false) => 2u8,
            None => 0u8,
        }),
{
    match forced {
        Some(on) => if on {
            1
        } else {
            2
        },
        None => 0,
    }
}

/// What is to be done about the "Active" box of the recording chain.
#[derive(Clone, Copy, Debug, PartialEq, Eq, Structural)]
pub enum ActiveStep {
    /// Nothing.
    Keep,
    /// Show this state.
    Show(bool),
    /// Give the override up.
    Release,
}

/// What is to be done about the "Active" box: without an override it shows what was detected, and an
/// override that has come to agree with what was detected is given up.
pub open spec fn step_for(mode: u8, shown: bool, detected: bool) -> ActiveStep {
    if mode == 0 {
        ActiveStep::Show(detected)
    } else if (mode == 1 || mode == 2) && shown == detected {
        ActiveStep::Release
    } else {
        ActiveStep::Keep
    }
}

/// Decides on the "Active" box.
pub fn active_step(mode: u8, shown: bool, detected: bool) -> (step: ActiveStep)
    ensures
        step == step_for(mode, shown, detected),
{
    match mode {
        0 => ActiveStep::Show(detected),
        1 | 2 => if shown == detected {
            ActiveStep::Release
        } else {
            ActiveStep::Keep
        },
        _ => ActiveStep::Keep,
    }
}

/// What a window with device pickers and level meters shows; `L` is a level.
pub struct AppGuiState<L> {
    pub bypass: bool,
    pub rms_in: L,
    pub rms_out: L,
    pub sinks: Vec<DeviceInfo>,
    pub sources: Vec<DeviceInfo>,
    pub default_sink_display: String,
    pub default_source_display: String,
    pub selected_sink: String,
    pub selected_source: String,
    pub refresh_devices: bool,
}

impl<L: Copy> AppGuiState<L> {
    /// A window that shows no devices yet, and `silence` as its levels.
    pub fn new(silence: L) -> (state: Self)
        ensures
            !state.bypass,
            state.rms_in == silence,
            state.rms_out == silence,
            state.sinks@.len() == 0,
            state.sources@.len() == 0,
            state.default_sink_display@.len() == 0,
            state.default_source_display@.len() == 0,
            state.selected_sink@.len() == 0,
            state.selected_source@.len() == 0,
            state.refresh_devices,
    {
        AppGuiState {
            bypass: false,
            rms_in: silence,
            rms_out: silence,
            sinks: Vec::new(),
            sources: Vec::new(),
            default_sink_display: String::new(),
            default_source_display: String::new(),
            selected_sink: String::new(),
            selected_source: String::new(),
            refresh_devices: true,
        }
    }

    /// Shows these devices. Where nothing was selected yet, the defaults are.
    pub fn set_devices(&mut self, lists: DeviceLists)
        ensures
            final(self).bypass == old(self).bypass,
            final(self).rms_in == old(self).rms_in,
            final(self).rms_out == old(self).rms_out,
            final(self).refresh_devices == old(self).refresh_devices,
            final(self).sinks == lists.sinks,
            final(self).sources == lists.sources,
            display_of(lists.sinks@, lists.default_sink@, final(self).default_sink_display@),
            display_of(lists.sources@, lists.default_source@, final(self).default_source_display@),
            final(self).selected_sink@ == if old(self).selected_sink@.len() == 0 {
                DEFAULT_SINK@
            } else {
                old(self).selected_sink@
            },
            final(self).selected_source@ == if old(self).selected_source@.len() == 0 {
                DEFAULT_SOURCE@
            } else {
                old(self).selected_source@
            },
    {
        self.default_sink_display = default_display(&lists.sinks, &lists.default_sink);
        self.default_source_display = default_display(&lists.sources, &lists.default_source);
        self.sinks = lists.sinks;
        self.sources = lists.sources;
        if self.selected_sink.as_str().unicode_len() == 0 {
            self.selected_sink = DEFAULT_SINK.to_owned();
        }
        if self.selected_source.as_str().unicode_len() == 0 {
            self.selected_source = DEFAULT_SOURCE.to_owned();
        }
    }
}

/// What is drawn of a window.
pub struct WindowView<L> {
    /// The lines of the output picker, and the one that shows as selected.
    pub sinks: Vec<ComboEntry>,
    pub sink_at: usize,
    /// The lines of the input picker, and the one that shows as selected.
    pub sources: Vec<ComboEntry>,
    pub source_at: usize,
    /// The "Enabled" box.
    pub enabled: bool,
    /// The levels of the two bars.
    pub rms_in: L,
    pub rms_out: L,
}

/// What the user has left a window as, once it was drawn.
pub struct WindowInput {
    pub sink_at: usize,
    pub source_at: usize,
    pub enabled: bool,
    /// A refresh button was pressed.
    pub refresh: bool,
}

/// What is drawn for a state.
pub fn render_gui<L: Copy>(state: &AppGuiState<L>) -> (view: WindowView<L>)
    ensures
        lists_entries(
            view.sinks@,
            state.sinks@,
            DEFAULT_SINK@,
            state.default_sink_display@,
        ),
        shows_selected(view.sinks@, state.selected_sink@, view.sink_at as int),
        lists_entries(
            view.sources@,
            state.sources@,
            DEFAULT_SOURCE@,
            state.default_source_display@,
        ),
        shows_selected(view.sources@, state.selected_source@, view.source_at as int),
        view.enabled == !state.bypass,
        view.rms_in == state.rms_in,
        view.rms_out == state.rms_out,
{
    let sinks = combo_entries(&state.sinks, DEFAULT_SINK, &state.default_sink_display);
    let sources = combo_entries(&state.sources, DEFAULT_SOURCE, &state.default_source_display);
    let sink_at: usize = combo_selected(&sinks, &state.selected_sink);
    let source_at: usize = combo_selected(&sources, &state.selected_source);
    WindowView {
        sinks,
        sink_at,
        sources,
        source_at,
        enabled: !state.bypass,
        rms_in: state.rms_in,
        rms_out: state.rms_out,
    }
}

/// The name that line `at` of a picker stands for; `selected` where there is no such line.
pub open spec fn picked(entries: Seq<ComboEntry>, at: int, selected: Seq<char>) -> Seq<char> {
    if 0 <= at < entries.len() {
        entries[at].name@
    } else {
        selected
    }
}

/// A window that the user leaves as it was drawn keeps a selection that is listed.
pub proof fn lemma_untouched_selection_stays(
    entries: Seq<ComboEntry>,
    selected: Seq<char>,
    at: int,
    k: int,
)
    requires
        shows_selected(entries, selected, at),
        0 <= k < entries.len(),
        entries[k].name@ == selected,
    ensures
        picked(entries, at, selected) == selected,
{
}

impl<L: Copy> AppGuiState<L> {
    /// Takes over what the user has left the window as.
    pub fn apply_input(&mut self, view: &WindowView<L>, input: &WindowInput)
        ensures
            final(self).selected_sink@ == picked(
                view.sinks@,
                input.sink_at as int,
                old(self).selected_sink@,
            ),
            final(self).selected_source@ == picked(
                view.sources@,
                input.source_at as int,
                old(self).selected_source@,
            ),
            final(self).bypass == !input.enabled,
            final(self).refresh_devices == (old(self).refresh_devices || input.refresh),
            final(self).rms_in == old(self).rms_in,
            final(self).rms_out == old(self).rms_out,
            final(self).sinks == old(self).sinks,
            final(self).sources == old(self).sources,
            final(self).default_sink_display == old(self).default_sink_display,
            final(self).default_source_display == old(self).default_source_display,
    {
        let sink = self.selected_sink.clone();
        let source = self.selected_source.clone();
        self.selected_sink = combo_pick(&view.sinks, input.sink_at, sink);
        self.selected_source = combo_pick(&view.sources, input.source_at, source);
        self.bypass = !input.enabled;
        if input.refresh {
            self.refresh_devices = true;
        }
    }
}

/// What a window remembers from one update to the next.
pub struct UpallaApp {
    pub previous_bypass: bool,
    pub previous_sink: String,
    pub previous_source: String,
    pub last_device_refresh: u64,
}

impl UpallaApp {
    /// A window that opens while the filter's bypass is `bypass`.
    pub fn new(bypass: bool, now: u64) -> (app: Self)
        ensures
            app.previous_bypass == bypass,
            app.previous_sink@.len() == 0,
            app.previous_source@.len() == 0,
            app.last_device_refresh == now,
    {
        UpallaApp {
            previous_bypass: bypass,
            previous_sink: String::new(),
            previous_source: String::new(),
            last_device_refresh: now,
        }
    }

    /// Whether the devices have to be listed anew: once a second, and on request. The request is
    /// then taken back.
    pub fn refresh_due<L>(&mut self, state: &mut AppGuiState<L>, now: u64) -> (due: bool)
        ensures
            due == (old(state).refresh_devices || time_since(now, old(self).last_device_refresh)
                >= NANOS_PER_SEC),
            !final(state).refresh_devices,
            *final(state) == (AppGuiState { refresh_devices: false, ..*old(state) }),
            final(self).last_device_refresh == if time_since(now, old(self).last_device_refresh)
                >= NANOS_PER_SEC {
                now
            } else {
                old(self).last_device_refresh
            },
            final(self).previous_bypass == old(self).previous_bypass,
            final(self).previous_sink == old(self).previous_sink,
            final(self).previous_source == old(self).previous_source,
    {
        if elapsed(now, self.last_device_refresh) >= NANOS_PER_SEC {
            state.refresh_devices = true;
            self.last_device_refresh = now;
        }
        let due = state.refresh_devices;
        state.refresh_devices = false;
        due
    }

    /// The sink to switch to, if another one was selected.
    pub fn sink_change(&mut self, selected: &String) -> (change: Option<String>)
        ensures
            change is Some <==> selected@ != old(self).previous_sink@,
            change matches Some(name) ==> name@ == selected@,
            final(self).previous_sink@ == selected@,
            final(self).previous_source == old(self).previous_source,
            final(self).previous_bypass == old(self).previous_bypass,
            final(self).last_device_refresh == old(self).last_device_refresh,
    {
        if *selected != self.previous_sink {
            self.previous_sink = selected.clone();
            Some(selected.clone())
        } else {
            None
        }
    }

    /// The source to switch to, if another one was selected.
    pub fn source_change(&mut self, selected: &String) -> (change: Option<String>)
        ensures
            change is Some <==> selected@ != old(self).previous_source@,
            change matches Some(name) ==> name@ == selected@,
            final(self).previous_source@ == selected@,
            final(self).previous_sink == old(self).previous_sink,
            final(self).previous_bypass == old(self).previous_bypass,
            final(self).last_device_refresh == old(self).last_device_refresh,
    {
        if *selected != self.previous_source {
            self.previous_source = selected.clone();
            Some(selected.clone())
        } else {
            None
        }
    }
}

/// What the filter has to be told after a window was looked at.
pub struct Changes {
    pub sink: Option<String>,
    pub source: Option<String>,
    pub bypass: SyncAction,
}

impl UpallaApp {
    /// Brings a window and the filter together: devices that were selected anew are passed on, and so
    /// is a bypass that the user has changed; one that was changed elsewhere is taken over.
    pub fn logic<L>(&mut self, state: &mut AppGuiState<L>, filter: bool) -> (changes: Changes)
        ensures
            changes.sink is Some <==> old(state).selected_sink@ != old(self).previous_sink@,
            changes.sink matches Some(name) ==> name@ == old(state).selected_sink@,
            changes.source is Some <==> old(state).selected_source@ != old(self).previous_source@,
            changes.source matches Some(name) ==> name@ == old(state).selected_source@,
            changes.bypass == sync_action(old(state).bypass, old(self).previous_bypass, filter),
            *final(state) == (AppGuiState {
                bypass: synced(old(state).bypass, filter, changes.bypass).0,
                ..*old(state)
            }),
            final(self).previous_sink@ == old(state).selected_sink@,
            final(self).previous_source@ == old(state).selected_source@,
            final(self).previous_bypass == final(state).bypass,
            final(self).last_device_refresh == old(self).last_device_refresh,
    {
        let sink = self.sink_change(&state.selected_sink);
        let source = self.source_change(&state.selected_source);
        let mut previous: bool = self.previous_bypass;
        let bypass = sync_bypass(state.bypass, &mut previous, filter);
        self.previous_bypass = previous;
        state.bypass = previous;
        Changes { sink, source, bypass }
    }
}

/// The entries of a tray menu, by their ids.
pub struct TrayMenuIds {
    pub show_hide: String,
    pub enabled: String,
    pub quit: String,
}

/// An entry of a tray menu; one that can be checked says whether it is.
pub struct TrayEntry {
    pub id: String,
    pub label: String,
    pub checked: Option<bool>,
}

/// The tray menu: show, enabled, quit.
pub fn create_tray(enabled: bool) -> (tray: (TrayMenuIds, Vec<TrayEntry>))
    ensures
        tray.1@.len() == 3,
        tray.1@[0].id@ == tray.0.show_hide@,
        tray.1@[0].label@ == "Show"@,
        tray.1@[0].checked is None,
        tray.1@[1].id@ == tray.0.enabled@,
        tray.1@[1].label@ == "Enabled"@,
        tray.1@[1].checked == Some(enabled),
        tray.1@[2].id@ == tray.0.quit@,
        tray.1@[2].label@ == "Quit"@,
        tray.1@[2].checked is None,
        tray.0.show_hide@ != tray.0.enabled@,
        tray.0.show_hide@ != tray.0.quit@,
        tray.0.enabled@ != tray.0.quit@,
{
    let ids = TrayMenuIds {
        show_hide: "show_hide".to_owned(),
        enabled: "enabled".to_owned(),
        quit: "quit".to_owned(),
    };
    proof {
        reveal_strlit("show_hide");
        reveal_strlit("enabled");
        reveal_strlit("quit");
        assert("show_hide"@.len() == 9 && "enabled"@.len() == 7 && "quit"@.len() == 4);
    }
    let entries = vec![
        TrayEntry { id: ids.show_hide.clone(), label: "Show".to_owned(), checked: None },
        TrayEntry { id: ids.enabled.clone(), label: "Enabled".to_owned(), checked: Some(enabled) },
        TrayEntry { id: ids.quit.clone(), label: "Quit".to_owned(), checked: None },
    ];
    (ids, entries)
}

/// What a click in the tray menu asks for.
#[derive(Clone, Copy, Debug, PartialEq, Eq, Structural)]
pub enum TrayAction {
    /// Nothing.
    Ignore,
    /// Open the window.
    OpenWindow,
    /// Bypass the filter if it is not, and the other way round.
    ToggleBypass,
    /// Stop the application.
    Quit,
}

/// Decides on a click. The window is opened unless it is open, or about to be.
pub fn tray_action(ids: &TrayMenuIds, clicked: &String, pending: bool, open: bool) -> (action:
    TrayAction)
    ensures
        action == (if clicked@ == ids.show_hide@ && !pending {
            if open {
                TrayAction::Ignore
            } else {
                TrayAction::OpenWindow
            }
        } else if clicked@ == ids.enabled@ {
            TrayAction::ToggleBypass
        } else if clicked@ == ids.quit@ {
            TrayAction::Quit
        } else {
            TrayAction::Ignore
        }),
{
    if *clicked == ids.show_hide && !pending {
        if open {
            TrayAction::Ignore
        } else {
            TrayAction::OpenWindow
        }
    } else if *clicked == ids.enabled {
        TrayAction::ToggleBypass
    } else if *clicked == ids.quit {
        TrayAction::Quit
    } else {
        TrayAction::Ignore
    }
}

/// A line of the menu of a status notifier's tray icon.
pub enum TrayItem {
    /// An entry that can be clicked.
    Plain { label: String, action: TrayAction },
    /// An entry that can be clicked, and is checked or not.
    Check { label: String, checked: bool, action: TrayAction },
    /// A line between entries.
    Separator,
}

/// The menu of a status notifier's tray icon: show, enabled, and below a line quit. "Enabled" is checked
/// while both chains are enabled.
pub fn tray_menu(switches: &Switches) -> (items: Vec<TrayItem>)
    ensures
        items@.len() == 4,
        items@[0] matches TrayItem::Plain { label, action } && label@ == "Show"@ && action
            == TrayAction::OpenWindow,
        items@[1] matches TrayItem::Check { label, checked, action } && label@ == "Enabled"@
            && checked == (switches.playback_enabled && switches.recording_enabled) && action
            == TrayAction::ToggleBypass,
        items@[2] is Separator,
        items@[3] matches TrayItem::Plain { label, action } && label@ == "Quit"@ && action
            == TrayAction::Quit,
{
    let mut items: Vec<TrayItem> = Vec::new();
    items.push(TrayItem::Plain { label: "Show".to_owned(), action: TrayAction::OpenWindow });
    items.push(
        TrayItem::Check {
            label: "Enabled".to_owned(),
            checked: switches.all_enabled(),
            action: TrayAction::ToggleBypass,
        },
    );
    items.push(TrayItem::Separator);
    items.push(TrayItem::Plain { label: "Quit".to_owned(), action: TrayAction::Quit });
    items
}

/// The state that a mirrored check mark has to change to, if any.
pub fn mirrored(current: bool, last: &mut bool) -> (change: Option<bool>)
    ensures
        change == (if current != *old(last) {
            Some(current)
        } else {
            None
        }),
        *final(last) == current,
{
    if current != *last {
        *last = current;
        Some(current)
    } else {
        None
    }
}

/// The switches of the macOS window.
pub struct AppDelegate {
    pub pb_enabled: bool,
    pub rec_enabled: bool,
}

impl AppDelegate {
    /// Both chains are enabled.
    pub fn new() -> (delegate: Self)
        ensures
            delegate.pb_enabled,
            delegate.rec_enabled,
    {
        AppDelegate { pb_enabled: true, rec_enabled: true }
    }

    /// Takes the state of the playback chain's box, and returns the command that tells the engine.
    pub fn apply_playback(&mut self, enabled: bool) -> (cmd: Cmd)
        ensures
            final(self).pb_enabled == enabled,
            final(self).rec_enabled == old(self).rec_enabled,
            cmd == Cmd::SetPlaybackBypass(!enabled),
    {
        self.pb_enabled = enabled;
        Cmd::SetPlaybackBypass(!enabled)
    }

    /// Takes the state of the recording chain's box, and returns the command that tells the engine.
    pub fn apply_recording(&mut self, enabled: bool) -> (cmd: Cmd)
        ensures
            final(self).rec_enabled == enabled,
            final(self).pb_enabled == old(self).pb_enabled,
            cmd == Cmd::SetRecordingBypass(!enabled),
    {
        self.rec_enabled = enabled;
        Cmd::SetRecordingBypass(!enabled)
    }
}

/// Who wins when a box and the filter differ: a box that has moved since it was last looked at is pushed, with
/// what it shows; else the filter is pulled, with what it has; and where nothing differs nothing is done.
pub proof fn lemma_moved_box_wins(shown: bool, previous: bool, filter: bool, bypass: bool)
    ensures
        sync_action(shown, previous, filter) == SyncAction::Push(bypass) <==> shown != previous && bypass
            == shown,
        sync_action(shown, previous, filter) == SyncAction::Pull(bypass) <==> shown == previous && shown
            != filter && bypass == filter,
        sync_action(shown, previous, filter) == SyncAction::Keep <==> shown == previous && shown == filter,
        synced(shown, filter, SyncAction::Push(bypass)) == (shown, bypass),
        synced(shown, filter, SyncAction::Pull(bypass)) == (bypass, filter),
        synced(shown, filter, SyncAction::Keep) == (shown, filter),
{
}

/// A line is switched to where the selection moved to it, it is not the first one, which stands for the
/// default, and the menu has it.
pub proof fn lemma_switch_to_a_device_line_only(at: i32, previous: i32, lines: nat, line: usize)
    ensures
        line_to_switch_to(at, previous, lines) == Some(line) ==> line == at && 1 <= line < lines && at
            != previous,
        line_to_switch_to(at, previous, lines) is None ==> at == previous || at < 1 || at >= lines,
        line_to_switch_to(at, at, lines) is None,
{
}

/// What an automatic indicator does: it shows what was detected; one that is forced goes back to automatic
/// as soon as what it shows was detected too, and else stays.
pub proof fn lemma_forced_until_detected(shown: bool, detected: bool, mode: u8, other: bool)
    ensures
        step_for(0, shown, detected) == ActiveStep::Show(detected),
        mode == 1 || mode == 2 ==> (step_for(mode, shown, detected) == ActiveStep::Release <==> shown
            == detected),
        mode != 0 ==> step_for(mode, shown, detected) != ActiveStep::Show(other),
        mode > 2 ==> step_for(mode, shown, detected) == ActiveStep::Keep,
{
}

/// What a pick names: the entry that was picked, and what was selected before where there is no such entry.
pub proof fn lemma_pick_names_its_entry(entries: Seq<ComboEntry>, at: int, selected: Seq<char>)
    ensures
        0 <= at < entries.len() ==> picked(entries, at, selected) == entries[at].name@,
        at >= entries.len() ==> picked(entries, at, selected) == selected,
{
}

} // verus!
