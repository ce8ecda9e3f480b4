//! Windows that are looked at several times a second: what the user has changed goes to the filter, what
//! was changed elsewhere shows up in the window.
use vstd::prelude::*;

use crate::devices::{default_display, default_line, display_of, menu_lines, DeviceInfo, DeviceLists};
use crate::gui::{
    active_step, line_to_switch_to, selection_moved, shown_bypass, step_for, sync_action, sync_bypass,
    synced, ActiveStep, Switches, SyncAction,
};
use crate::text::text_of;

verus! {

/// The lines of a window's two device menus.
pub struct DeviceMenus {
    pub sinks: Vec<String>,
    pub sources: Vec<String>,
}

/// Whether `lines` is a menu of `devices`: the default first, as it is shown, then every device by its
/// description.
pub open spec fn is_menu(lines: Seq<String>, devices: Seq<DeviceInfo>, default: Seq<char>) -> bool {
    &&& lines.len() == devices.len() + 1
    &&& exists|shown: Seq<char>| #[trigger]
        display_of(devices, default, shown) && lines[0]@ == default_line(shown)
    &&& forall|i: int|
        0 <= i < devices.len() ==> (#[trigger] lines[i + 1])@ == devices[i].description@
}

impl DeviceMenus {
    /// The menus for the devices of a server.
    pub fn of(lists: &DeviceLists) -> (menus: Self)
        ensures
            is_menu(menus.sinks@, lists.sinks@, lists.default_sink@),
            is_menu(menus.sources@, lists.sources@, lists.default_source@),
    {
        let sink = default_display(&lists.sinks, &lists.default_sink);
        let source = default_display(&lists.sources, &lists.default_source);
        let sinks = menu_lines(&lists.sinks, &sink);
        let sources = menu_lines(&lists.sources, &source);
        assert(display_of(lists.sinks@, lists.default_sink@, sink@));
        assert(display_of(lists.sources@, lists.default_source@, source@));
        DeviceMenus { sinks, sources }
    }
}

/// The controls of a window with boxes for each chain.
#[derive(Clone, Copy, Debug, PartialEq, Eq, Structural)]
pub struct Shown {
    /// The selected lines of the device menus.
    pub sink_index: i32,
    pub source_index: i32,
    /// The "Enabled" boxes of the chains.
    pub playback_enabled: bool,
    pub recording_enabled: bool,
    /// The "Active" box of the recording chain.
    pub recording_active: bool,
}

/// What such a window remembers from one look to the next.
pub struct SharedState {
    pub previous_sink_idx: i32,
    pub previous_source_idx: i32,
    pub previous_pb_bypass: bool,
    pub previous_rec_bypass: bool,
    /// Whether an application was last seen to listen on the virtual source.
    pub last_recording_detected: bool,
    /// The devices that the lines of the menus stand for.
    pub sink_descriptions: Vec<String>,
    pub source_descriptions: Vec<String>,
}

/// The device to switch to, if any.
pub open spec fn switched(
    choice: Option<Seq<char>>,
    at: i32,
    previous: i32,
    descriptions: Seq<String>,
) -> bool {
    choice == match line_to_switch_to(at, previous, descriptions.len()) {
        Some(line) => Some(descriptions[line as int]@),
        None => None,
    }
}

/// How a window, what it remembers and the filter's switches have changed at a look.
pub open spec fn looked_at(
    state0: SharedState,
    shown0: Shown,
    switches0: Switches,
    mode0: u8,
    state: SharedState,
    shown: Shown,
    switches: Switches,
    mode: u8,
) -> bool {
    let pb = sync_action(
        !shown0.playback_enabled,
        state0.previous_pb_bypass,
        !switches0.playback_enabled,
    );
    let rec = sync_action(
        !shown0.recording_enabled,
        state0.previous_rec_bypass,
        !switches0.recording_enabled,
    );
    let pb_after = synced(!shown0.playback_enabled, !switches0.playback_enabled, pb);
    let rec_after = synced(!shown0.recording_enabled, !switches0.recording_enabled, rec);
    let step = step_for(mode0, shown0.recording_active, state0.last_recording_detected);
    &&& shown == Shown {
        sink_index: shown0.sink_index,
        source_index: shown0.source_index,
        playback_enabled: !pb_after.0,
        recording_enabled: !rec_after.0,
        recording_active: match step {
            ActiveStep::Show(detected) => detected,
            _ => shown0.recording_active,
        },
    }
    &&& switches == Switches { playback_enabled: !pb_after.1, recording_enabled: !rec_after.1 }
    &&& mode == (if step == ActiveStep::Release {
        0u8
    } else {
        mode0
    })
    &&& state == SharedState {
        previous_sink_idx: shown0.sink_index,
        previous_source_idx: shown0.source_index,
        previous_pb_bypass: pb_after.0,
        previous_rec_bypass: rec_after.0,
        ..state0
    }
}

/// The description at a line.
fn line_at(descriptions: &Vec<String>, line: Option<usize>) -> (text: Option<String>)
    requires
        line matches Some(i) ==> i < descriptions@.len(),
    ensures
        match line {
            Some(i) => text matches Some(t) && t@ == descriptions@[i as int]@,
            None => text is None,
        },
{
    match line {
        Some(i) => Some(descriptions[i].clone()),
        None => None,
    }
}

impl SharedState {
    /// A window that shows both chains enabled and the default devices selected.
    pub fn new() -> (state: Self)
        ensures
            state.previous_sink_idx == 0,
            state.previous_source_idx == 0,
            !state.previous_pb_bypass,
            !state.previous_rec_bypass,
            !state.last_recording_detected,
            state.sink_descriptions@.len() == 0,
            state.source_descriptions@.len() == 0,
    {
        SharedState {
            previous_sink_idx: 0,
            previous_source_idx: 0,
            previous_pb_bypass: false,
            previous_rec_bypass: false,
            last_recording_detected: false,
            sink_descriptions: Vec::new(),
            source_descriptions: Vec::new(),
        }
    }

    /// Takes a status of the filter over: whether an application listens on the virtual source is
    /// remembered while the window is open, and passed over while it is not.
    pub fn take_status(&mut self, detected: bool, open: bool)
        ensures
            *final(self) == (SharedState {
                last_recording_detected: if open {
                    detected
                } else {
                    old(self).last_recording_detected
                },
                ..*old(self)
            }),
    {
        if open {
            self.last_recording_detected = detected;
        }
    }

    /// Looks at the window: brings it and the filter's switches together, chain by chain, carries the
    /// override of the recording capture on (`mode`), and returns the sink and the source that were
    /// selected anew.
    pub fn update_levels(&mut self, shown: &mut Shown, switches: &mut Switches, mode: &mut u8) -> (
    chosen: (Option<String>, Option<String>))
        ensures
            looked_at(
                *old(self),
                *old(shown),
                *old(switches),
                *old(mode),
                *final(self),
                *final(shown),
                *final(switches),
                *final(mode),
            ),
            switched(
                text_of(chosen.0),
                old(shown).sink_index,
                old(self).previous_sink_idx,
                old(self).sink_descriptions@,
            ),
            switched(
                text_of(chosen.1),
                old(shown).source_index,
                old(self).previous_source_idx,
                old(self).source_descriptions@,
            ),
    {
        let mut at: i32 = self.previous_sink_idx;
        let line = selection_moved(shown.sink_index, &mut at, self.sink_descriptions.len());
        self.previous_sink_idx = at;
        let sink = line_at(&self.sink_descriptions, line);

        let mut at: i32 = self.previous_source_idx;
        let line = selection_moved(shown.source_index, &mut at, self.source_descriptions.len());
        self.previous_source_idx = at;
        let source = line_at(&self.source_descriptions, line);

        let mut previous: bool = self.previous_pb_bypass;
        let filter = switches.playback_bypass();
        match sync_bypass(!shown.playback_enabled, &mut previous, filter) {
            SyncAction::Keep => {},
            SyncAction::Push(bypass) => switches.set_playback_bypass(bypass),
            SyncAction::Pull(bypass) => shown.playback_enabled = !bypass,
        }
        self.previous_pb_bypass = previous;

        let mut previous: bool = self.previous_rec_bypass;
        let filter = switches.recording_bypass();
        match sync_bypass(!shown.recording_enabled, &mut previous, filter) {
            SyncAction::Keep => {},
            SyncAction::Push(bypass) => switches.set_recording_bypass(bypass),
            SyncAction::Pull(bypass) => shown.recording_enabled = !bypass,
        }
        self.previous_rec_bypass = previous;

        match active_step(*mode, shown.recording_active, self.last_recording_detected) {
            ActiveStep::Keep => {},
            ActiveStep::Show(detected) => shown.recording_active = detected,
            ActiveStep::Release => *mode = 0,
        }
        (sink, source)
    }
}

/// After a look the boxes of a window agree with the filter, and looking again changes nothing and
/// selects nothing.
pub proof fn lemma_second_look_is_quiet(
    state0: SharedState,
    shown0: Shown,
    switches0: Switches,
    mode0: u8,
    state1: SharedState,
    shown1: Shown,
    switches1: Switches,
    mode1: u8,
    state2: SharedState,
    shown2: Shown,
    switches2: Switches,
    mode2: u8,
)
    requires
        looked_at(state0, shown0, switches0, mode0, state1, shown1, switches1, mode1),
        looked_at(state1, shown1, switches1, mode1, state2, shown2, switches2, mode2),
    ensures
        shown1.playback_enabled == switches1.playback_enabled,
        shown1.recording_enabled == switches1.recording_enabled,
        state2 == state1,
        shown2 == shown1,
        switches2 == switches1,
        mode2 == mode1,
        switched(None, shown1.sink_index, state1.previous_sink_idx, state1.sink_descriptions@),
        switched(
            None,
            shown1.source_index,
            state1.previous_source_idx,
            state1.source_descriptions@,
        ),
{
}

/// A device menu as a toolkit reports it: the selected line, if any, and its text.
pub struct Picker {
    pub active: Option<u32>,
    pub text: Option<String>,
}

impl Picker {
    /// The selected line; the first where none is.
    pub open spec fn line(&self) -> u32 {
        match self.active {
            Some(at) => at,
            None => 0,
        }
    }

    /// The selected line.
    fn selected(&self) -> (at: u32)
        ensures
            at == self.line(),
    {
        match self.active {
            Some(at) => at,
            None => 0,
        }
    }
}

/// What a window with one bypass for both chains remembers from one look to the next.
pub struct AppState {
    pub previous_sink_idx: u32,
    pub previous_source_idx: u32,
    pub previous_bypass: bool,
}

/// The text to switch to: that of a line other than the first, once the selection has moved there.
pub open spec fn text_to_switch_to(picker: Picker, previous: u32) -> Option<Seq<char>> {
    if picker.line() != previous && picker.line() > 0 {
        text_of(picker.text)
    } else {
        None
    }
}

/// The text to switch to, if any.
fn picked_anew(picker: &Picker, previous: u32) -> (text: Option<String>)
    ensures
        text_of(text) == text_to_switch_to(*picker, previous),
{
    let at: u32 = picker.selected();
    if at != previous && at > 0 {
        match &picker.text {
            Some(text) => Some(text.clone()),
            None => None,
        }
    } else {
        None
    }
}

/// Whether a window with one "Enabled" box per chain shows a bypass.
pub open spec fn shows_bypass(playback_checked: bool, recording_checked: bool) -> bool {
    !(playback_checked || recording_checked)
}

/// How such a window and the filter's switches have changed at a look.
pub open spec fn both_looked_at(
    previous: bool,
    boxes0: (bool, bool),
    switches0: Switches,
    boxes: (bool, bool),
    switches: Switches,
    remembered: bool,
) -> bool {
    let bypassed = !switches0.playback_enabled && !switches0.recording_enabled;
    let shown = shows_bypass(boxes0.0, boxes0.1);
    let action = sync_action(shown, previous, bypassed);
    &&& remembered == synced(shown, bypassed, action).0
    &&& boxes == match action {
        SyncAction::Pull(bypass) => (!bypass, !bypass),
        _ => boxes0,
    }
    &&& switches == match action {
        SyncAction::Push(bypass) => Switches {
            playback_enabled: !bypass,
            recording_enabled: !bypass,
        },
        _ => switches0,
    }
}

impl AppState {
    /// A window with the default devices selected and both boxes checked.
    pub fn new() -> (state: Self)
        ensures
            state.previous_sink_idx == 0,
            state.previous_source_idx == 0,
            !state.previous_bypass,
    {
        AppState { previous_sink_idx: 0, previous_source_idx: 0, previous_bypass: false }
    }

    /// Looks at the window: brings its boxes and the filter's switches together, and returns the sink
    /// and the source that were selected anew.
    pub fn update_levels(
        &mut self,
        sink: &Picker,
        source: &Picker,
        playback_checked: &mut bool,
        recording_checked: &mut bool,
        switches: &mut Switches,
    ) -> (chosen: (Option<String>, Option<String>))
        ensures
            text_of(chosen.0) == text_to_switch_to(*sink, old(self).previous_sink_idx),
            text_of(chosen.1) == text_to_switch_to(
                *source,
                old(self).previous_source_idx,
            ),
            final(self).previous_sink_idx == sink.line(),
            final(self).previous_source_idx == source.line(),
            both_looked_at(
                old(self).previous_bypass,
                (*old(playback_checked), *old(recording_checked)),
                *old(switches),
                (*final(playback_checked), *final(recording_checked)),
                *final(switches),
                final(self).previous_bypass,
            ),
    {
        let to_sink = picked_anew(sink, self.previous_sink_idx);
        self.previous_sink_idx = sink.selected();
        let to_source = picked_anew(source, self.previous_source_idx);
        self.previous_source_idx = source.selected();

        let shown = shown_bypass(*playback_checked, *recording_checked);
        let mut previous: bool = self.previous_bypass;
        match sync_bypass(shown, &mut previous, switches.bypass()) {
            SyncAction::Keep => {},
            SyncAction::Push(bypass) => switches.set_bypass(bypass),
            SyncAction::Pull(bypass) => {
                *playback_checked = !bypass;
                *recording_checked = !bypass;
            },
        }
        self.previous_bypass = previous;
        (to_sink, to_source)
    }
}

/// After a look the boxes show a bypass just when the filter bypasses both chains, and looking again
/// changes nothing.
pub proof fn lemma_boxes_agree(
    previous: bool,
    boxes0: (bool, bool),
    switches0: Switches,
    boxes1: (bool, bool),
    switches1: Switches,
    remembered1: bool,
    boxes2: (bool, bool),
    switches2: Switches,
    remembered2: bool,
)
    requires
        both_looked_at(previous, boxes0, switches0, boxes1, switches1, remembered1),
        both_looked_at(remembered1, boxes1, switches1, boxes2, switches2, remembered2),
    ensures
        shows_bypass(boxes1.0, boxes1.1) == (!switches1.playback_enabled
            && !switches1.recording_enabled),
        boxes2 == boxes1,
        switches2 == switches1,
        remembered2 == remembered1,
{
}

/// After a look at the window, each box and its switch agree on whichever of the two has moved: the box where
/// it has since the last look, the switch else. What was selected is remembered, and the lists stay.
pub proof fn lemma_look_follows_what_moved(
    state0: SharedState,
    shown0: Shown,
    switches0: Switches,
    mode0: u8,
    state: SharedState,
    shown: Shown,
    switches: Switches,
    mode: u8,
)
    requires
        looked_at(state0, shown0, switches0, mode0, state, shown, switches, mode),
    ensures
        shown.playback_enabled == switches.playback_enabled,
        shown.recording_enabled == switches.recording_enabled,
        state0.previous_pb_bypass == shown0.playback_enabled ==> switches.playback_enabled
            == shown0.playback_enabled,
        state0.previous_pb_bypass != shown0.playback_enabled ==> switches.playback_enabled
            == switches0.playback_enabled,
        state0.previous_rec_bypass == shown0.recording_enabled ==> switches.recording_enabled
            == shown0.recording_enabled,
        state0.previous_rec_bypass != shown0.recording_enabled ==> switches.recording_enabled
            == switches0.recording_enabled,
        state.previous_pb_bypass != switches.playback_enabled,
        state.previous_rec_bypass != switches.recording_enabled,
        state.previous_sink_idx == shown0.sink_index && shown.sink_index == shown0.sink_index,
        state.previous_source_idx == shown0.source_index && shown.source_index == shown0.source_index,
        mode0 == 0 ==> shown.recording_active == state0.last_recording_detected && mode == 0,
        mode0 != 0 ==> shown.recording_active == shown0.recording_active,
        mode0 == 1 || mode0 == 2 ==> mode == (if shown0.recording_active == state0.last_recording_detected {
            0u8
        } else {
            mode0
        }),
        state.last_recording_detected == state0.last_recording_detected,
        state.sink_descriptions == state0.sink_descriptions,
        state.source_descriptions == state0.source_descriptions,
{
}

/// What one box for both chains does: checked where either is, it follows the switches unless it was moved,
/// and sets both where it was.
pub proof fn lemma_boxes_follow_what_moved(
    previous: bool,
    boxes0: (bool, bool),
    switches0: Switches,
    boxes: (bool, bool),
    switches: Switches,
    remembered: bool,
)
    requires
        both_looked_at(previous, boxes0, switches0, boxes, switches, remembered),
    ensures
        shows_bypass(boxes0.0, boxes0.1) <==> !boxes0.0 && !boxes0.1,
        previous == (boxes0.0 || boxes0.1) ==> {
            &&& boxes == boxes0
            &&& switches.playback_enabled == (boxes0.0 || boxes0.1)
            &&& switches.recording_enabled == (boxes0.0 || boxes0.1)
        },
        previous != (boxes0.0 || boxes0.1) ==> switches == switches0,
        previous != (boxes0.0 || boxes0.1) && (switches0.playback_enabled || switches0.recording_enabled)
            != (boxes0.0 || boxes0.1) ==> boxes.0 == (switches0.playback_enabled
            || switches0.recording_enabled) && boxes.1 == boxes.0,
        previous != (boxes0.0 || boxes0.1) && (switches0.playback_enabled || switches0.recording_enabled)
            == (boxes0.0 || boxes0.1) ==> boxes == boxes0,
        remembered == !(switches.playback_enabled || switches.recording_enabled),
{
}

/// A picker switches to its text where another line than before is selected, and that is not the first.
pub proof fn lemma_picker_switches_to_a_new_line(picker: Picker, previous: u32)
    ensures
        picker.active is None ==> text_to_switch_to(picker, previous) is None,
        picker.active matches Some(at) ==> {
            &&& at == 0 || at == previous ==> text_to_switch_to(picker, previous) is None
            &&& at != 0 && at != previous ==> text_to_switch_to(picker, previous) == text_of(picker.text)
        },
{
}

/// What is switched to is the device that the selected line stands for.
pub proof fn lemma_switch_names_the_line(
    choice: Option<Seq<char>>,
    at: i32,
    previous: i32,
    descriptions: Seq<String>,
)
    requires
        switched(choice, at, previous, descriptions),
    ensures
        choice is Some <==> at != previous && 1 <= at < descriptions.len(),
        choice matches Some(name) ==> name == descriptions[at as int]@,
{
}

/// A menu has the default first and then a line for each device, in the order of the devices and under their
/// descriptions.
pub proof fn lemma_menu_line_by_line(lines: Seq<String>, devices: Seq<DeviceInfo>, default: Seq<char>, i: int)
    requires
        is_menu(lines, devices, default),
    ensures
        lines.len() == 1 + devices.len(),
        1 <= i < lines.len() ==> lines[i]@ == devices[i - 1].description@,
        exists|shown: Seq<char>| #[trigger]
            display_of(devices, default, shown) && lines[0]@ == default_line(shown),
{
    if 1 <= i < lines.len() {
        assert(lines[(i - 1) + 1]@ == devices[i - 1].description@);
    }
}

} // verus!
