//! Choosing audio devices by name.
use vstd::prelude::*;
use vstd::string::*;

use crate::text::{contains, contains_text, text_of, texts};

verus! {

/// Name that stands for the system's default sink.
pub const DEFAULT_SINK: &'static str = "@DEFAULT_SINK@";

/// Name that stands for the system's default source.
pub const DEFAULT_SOURCE: &'static str = "@DEFAULT_SOURCE@";

/// One audio device.
pub struct DeviceInfo {
    pub name: String,
    pub description: String,
}

/// The devices of a system.
pub struct DeviceLists {
    pub sinks: Vec<DeviceInfo>,
    pub sources: Vec<DeviceInfo>,
    pub default_sink: String,
    pub default_source: String,
}

impl DeviceInfo {
    /// A device with the same name and description.
    pub fn copied(&self) -> (d: Self)
        ensures
            d == *self,
    {
        DeviceInfo { name: self.name.clone(), description: self.description.clone() }
    }
}

impl DeviceLists {
    /// The answer when no engine is there to ask.
    pub fn none() -> (lists: Self)
        ensures
            lists.sinks@.len() == 0,
            lists.sources@.len() == 0,
            lists.default_sink@.len() == 0,
            lists.default_source@.len() == 0,
    {
        DeviceLists {
            sinks: Vec::new(),
            sources: Vec::new(),
            default_sink: String::new(),
            default_source: String::new(),
        }
    }
}

/// Whether a device is one that this application has made.
pub open spec fn is_own(d: DeviceInfo) -> bool {
    contains_text(d.name@, "upalla"@)
}

/// The devices that this application has not made, in their order.
pub open spec fn foreign(devices: Seq<DeviceInfo>) -> Seq<DeviceInfo> {
    devices.filter(|d: DeviceInfo| !is_own(d))
}

/// Leaves out the devices that this application has made.
pub fn without_own(devices: &Vec<DeviceInfo>) -> (kept: Vec<DeviceInfo>)
    ensures
        kept@ == foreign(devices@),
{
    let mut kept: Vec<DeviceInfo> = Vec::new();
    let mut i: usize = 0;
    proof {
        reveal(Seq::filter);
    }
    while i < devices.len()
        invariant
            i <= devices@.len(),
            kept@ == foreign(devices@.take(i as int)),
        decreases devices@.len() - i,
    {
        proof {
            reveal(Seq::filter);
            assert(devices@.take(i + 1).drop_last() =~= devices@.take(i as int));
        }
        if !contains(&devices[i].name, "upalla") {
            kept.push(devices[i].copied());
        }
        i += 1;
    }
    assert(devices@.take(i as int) =~= devices@);
    kept
}

/// Whether some device bears this name.
pub open spec fn has_name(devices: Seq<DeviceInfo>, name: Seq<char>) -> bool {
    exists|i: int| 0 <= i < devices.len() && (#[trigger] devices[i]).name@ == name
}

/// The position of the first device with this name.
pub fn position(devices: &Vec<DeviceInfo>, name: &String) -> (at: Option<usize>)
    ensures
        at is Some <==> has_name(devices@, name@),
        at matches Some(i) ==> i < devices@.len() && devices@[i as int].name@ == name@ && forall|
            j: int,
        |
            0 <= j < i ==> (#[trigger] devices@[j]).name@ != name@,
{
    let mut i: usize = 0;
    while i < devices.len()
        invariant
            i <= devices@.len(),
            forall|j: int| 0 <= j < i ==> (#[trigger] devices@[j]).name@ != name@,
        decreases devices@.len() - i,
    {
        if devices[i].name == *name {
            return Some(i);
        }
        i += 1;
    }
    None
}

/// The device to use in place of the server's default: the default itself where it is listed,
/// else the first listed device, else the alias of the default.
pub open spec fn resolved(
    default: Seq<char>,
    devices: Seq<DeviceInfo>,
    alias: Seq<char>,
) -> Seq<char> {
    if default.len() > 0 && has_name(devices, default) {
        default
    } else if devices.len() > 0 {
        devices[0].name@
    } else {
        alias
    }
}

/// The device to use in place of the server's default.
pub fn resolve_default(default: String, devices: &Vec<DeviceInfo>, alias: &str) -> (name: String)
    ensures
        name@ == resolved(default@, devices@, alias@),
{
    if default.as_str().unicode_len() > 0 && position(devices, &default).is_some() {
        default
    } else if devices.len() > 0 {
        devices[0].name.clone()
    } else {
        alias.to_owned()
    }
}

/// Where denoised playback is delivered and where recording captures from, given the server's
/// defaults and all of its devices. This application's own devices are left out: routing to one of
/// them would feed its output back to its input.
pub fn resolve_default_devices(
    default_sink: String,
    default_source: String,
    sinks: &Vec<DeviceInfo>,
    sources: &Vec<DeviceInfo>,
) -> (targets: (String, String))
    ensures
        targets.0@ == resolved(default_sink@, foreign(sinks@), DEFAULT_SINK@),
        targets.1@ == resolved(default_source@, foreign(sources@), DEFAULT_SOURCE@),
{
    let sinks = without_own(sinks);
    let sources = without_own(sources);
    (
        resolve_default(default_sink, &sinks, DEFAULT_SINK),
        resolve_default(default_source, &sources, DEFAULT_SOURCE),
    )
}

/// What is routed to is the alias or a device that this application has not made, whatever the
/// server's default is. Any device that is named is thus safe from feedback; the alias, which is left
/// where there is no other device at all, is the server's to resolve, and may come to be one of this
/// application's own.
pub proof fn lemma_no_feedback(default: Seq<char>, devices: Seq<DeviceInfo>, alias: Seq<char>)
    ensures
        ({
            let target = resolved(default, foreign(devices), alias);
            target == alias || exists|i: int|
                0 <= i < devices.len() && (#[trigger] devices[i]).name@ == target && !is_own(
                    devices[i],
                )
        }),
{
    let kept = foreign(devices);
    let target = resolved(default, kept, alias);
    if default.len() > 0 && has_name(kept, default) {
        let i = choose|i: int| 0 <= i < kept.len() && (#[trigger] kept[i]).name@ == default;
        lemma_kept_is_foreign(devices, i);
    } else if kept.len() > 0 {
        lemma_kept_is_foreign(devices, 0);
    }
}

/// A kept device is one of the list and not this application's own.
proof fn lemma_kept_is_foreign(devices: Seq<DeviceInfo>, i: int)
    requires
        0 <= i < foreign(devices).len(),
    ensures
        exists|j: int|
            0 <= j < devices.len() && (#[trigger] devices[j]) == foreign(devices)[i] && !is_own(
                devices[j],
            ),
    decreases devices.len(),
{
    reveal(Seq::filter);
    let before = devices.drop_last();
    if devices.len() > 0 {
        if i < foreign(before).len() {
            lemma_kept_is_foreign(before, i);
            let j = choose|j: int|
                0 <= j < before.len() && (#[trigger] before[j]) == foreign(before)[i] && !is_own(
                    before[j],
                );
            assert(devices[j] == before[j]);
        } else {
            assert(devices[devices.len() - 1] == foreign(devices)[i]);
        }
    }
}

/// How the default device is shown: by its description where it is listed, else by its name.
pub open spec fn display_of(devices: Seq<DeviceInfo>, default: Seq<char>, shown: Seq<char>) -> bool {
    if has_name(devices, default) {
        exists|i: int|
            {
                &&& 0 <= i < devices.len()
                &&& (#[trigger] devices[i]).name@ == default
                &&& devices[i].description@ == shown
                &&& forall|j: int| 0 <= j < i ==> (#[trigger] devices[j]).name@ != default
            }
    } else {
        shown == default
    }
}

/// How the default device is shown.
pub fn default_display(devices: &Vec<DeviceInfo>, default: &String) -> (shown: String)
    ensures
        display_of(devices@, default@, shown@),
{
    match position(devices, default) {
        Some(i) => devices[i].description.clone(),
        None => default.clone(),
    }
}

/// The first line of a device menu.
pub open spec fn default_line(shown: Seq<char>) -> Seq<char> {
    "Default ("@ + shown + ")"@
}

/// The first line of a device menu.
pub fn default_label(shown: &String) -> (line: String)
    ensures
        line@ == default_line(shown@),
{
    let mut line = "Default (".to_owned();
    line.append(shown.as_str());
    line.append(")");
    line
}

/// The lines of a device menu: the default, then every device by its description.
pub fn menu_lines(devices: &Vec<DeviceInfo>, shown: &String) -> (lines: Vec<String>)
    ensures
        lines@.len() == devices@.len() + 1,
        lines@[0]@ == default_line(shown@),
        forall|i: int|
            0 <= i < devices@.len() ==> (#[trigger] lines@[i + 1])@ == devices@[i].description@,
{
    let mut lines: Vec<String> = Vec::new();
    lines.push(default_label(shown));
    let mut i: usize = 0;
    while i < devices.len()
        invariant
            i <= devices@.len(),
            lines@.len() == i + 1,
            lines@[0]@ == default_line(shown@),
            forall|j: int|
                0 <= j < i ==> (#[trigger] lines@[j + 1])@ == devices@[j].description@,
        decreases devices@.len() - i,
    {
        lines.push(devices[i].description.clone());
        i += 1;
    }
    lines
}

/// One line of a device picker: the name that it selects, and what is shown.
pub struct ComboEntry {
    pub name: String,
    pub label: String,
}

/// The lines of a device picker: the default under its alias, then every device.
pub open spec fn lists_entries(
    entries: Seq<ComboEntry>,
    devices: Seq<DeviceInfo>,
    alias: Seq<char>,
    shown: Seq<char>,
) -> bool {
    &&& entries.len() == devices.len() + 1
    &&& entries[0].name@ == alias
    &&& entries[0].label@ == default_line(shown)
    &&& forall|i: int|
        0 <= i < devices.len() ==> (#[trigger] entries[i + 1]).name@ == devices[i].name@
            && entries[i + 1].label@ == devices[i].description@
}

/// The lines of a device picker.
pub fn combo_entries(devices: &Vec<DeviceInfo>, alias: &str, shown: &String) -> (entries: Vec<
    ComboEntry,
>)
    ensures
        lists_entries(entries@, devices@, alias@, shown@),
{
    let mut entries: Vec<ComboEntry> = Vec::new();
    entries.push(ComboEntry { name: alias.to_owned(), label: default_label(shown) });
    let mut i: usize = 0;
    while i < devices.len()
        invariant
            i <= devices@.len(),
            entries@.len() == i + 1,
            entries@[0].name@ == alias@,
            entries@[0].label@ == default_line(shown@),
            forall|j: int|
                0 <= j < i ==> (#[trigger] entries@[j + 1]).name@ == devices@[j].name@
                    && entries@[j + 1].label@ == devices@[j].description@,
        decreases devices@.len() - i,
    {
        entries.push(
            ComboEntry { name: devices[i].name.clone(), label: devices[i].description.clone() },
        );
        i += 1;
    }
    entries
}

/// Whether line `at` of a device picker shows as selected: it is the first with this name, or the first of
/// all where there is none.
pub open spec fn shows_selected(entries: Seq<ComboEntry>, selected: Seq<char>, at: int) -> bool {
    ||| {
        &&& 0 <= at < entries.len()
        &&& entries[at].name@ == selected
        &&& forall|j: int| 0 <= j < at ==> (#[trigger] entries[j]).name@ != selected
    }
    ||| {
        &&& at == 0
        &&& forall|j: int| 0 <= j < entries.len() ==> (#[trigger] entries[j]).name@ != selected
    }
}

/// The line of a device picker that shows as selected.
pub fn combo_selected(entries: &Vec<ComboEntry>, selected: &String) -> (at: usize)
    ensures
        shows_selected(entries@, selected@, at as int),
{
    let mut i: usize = 0;
    while i < entries.len()
        invariant
            i <= entries@.len(),
            forall|j: int| 0 <= j < i ==> (#[trigger] entries@[j]).name@ != selected@,
        decreases entries@.len() - i,
    {
        if entries[i].name == *selected {
            return i;
        }
        i += 1;
    }
    0
}

/// The name that line `at` of a device picker selects; the selection stays where there is no such
/// line.
pub fn combo_pick(entries: &Vec<ComboEntry>, at: usize, selected: String) -> (name: String)
    ensures
        name@ == if at < entries@.len() {
            entries@[at as int].name@
        } else {
            selected@
        },
{
    if at < entries.len() {
        entries[at].name.clone()
    } else {
        selected
    }
}

/// Which device a name asks for.
#[derive(Clone, Copy, Debug, PartialEq, Eq, Structural)]
pub enum DevicePick {
    /// The system's default.
    Default,
    /// The listed device at this position.
    At(usize),
    /// None that is listed.
    Missing,
}

/// Whether `pick` is what `wanted` asks for among devices of these names, where `alias` and the
/// empty name stand for the default.
pub open spec fn picks(
    names: Seq<String>,
    wanted: Seq<char>,
    alias: Seq<char>,
    pick: DevicePick,
) -> bool {
    match pick {
        DevicePick::Default => wanted == alias || wanted.len() == 0,
        DevicePick::At(i) => {
            &&& wanted != alias
            &&& wanted.len() > 0
            &&& i < names.len()
            &&& names[i as int]@ == wanted
            &&& forall|j: int| 0 <= j < i ==> (#[trigger] names[j])@ != wanted
        },
        DevicePick::Missing => {
            &&& wanted != alias
            &&& wanted.len() > 0
            &&& forall|j: int| 0 <= j < names.len() ==> (#[trigger] names[j])@ != wanted
        },
    }
}

/// Finds the device that `wanted` asks for.
fn find_by_name(names: &Vec<String>, wanted: &String, alias: &str) -> (pick: DevicePick)
    ensures
        picks(names@, wanted@, alias@, pick),
{
    if *wanted == alias.to_owned() || wanted.as_str().unicode_len() == 0 {
        return DevicePick::Default;
    }
    let mut i: usize = 0;
    while i < names.len()
        invariant
            i <= names@.len(),
            wanted@ != alias@,
            wanted@.len() > 0,
            forall|j: int| 0 <= j < i ==> (#[trigger] names@[j])@ != wanted@,
        decreases names@.len() - i,
    {
        if names[i] == *wanted {
            return DevicePick::At(i);
        }
        i += 1;
    }
    DevicePick::Missing
}

/// Finds the output device that `wanted` asks for among the output devices of these names.
pub fn find_output_by_name(names: &Vec<String>, wanted: &String) -> (pick: DevicePick)
    ensures
        picks(names@, wanted@, DEFAULT_SINK@, pick),
{
    find_by_name(names, wanted, DEFAULT_SINK)
}

/// Finds the input device that `wanted` asks for among the input devices of these names.
pub fn find_input_by_name(names: &Vec<String>, wanted: &String) -> (pick: DevicePick)
    ensures
        picks(names@, wanted@, DEFAULT_SOURCE@, pick),
{
    find_by_name(names, wanted, DEFAULT_SOURCE)
}

/// Whether a device is a BlackHole loopback.
pub open spec fn is_blackhole(name: Seq<char>) -> bool {
    contains_text(name, "BlackHole"@)
}

/// The first BlackHole output among the output devices of these names.
pub fn find_blackhole_output(names: &Vec<String>) -> (at: Option<usize>)
    ensures
        match at {
            Some(i) => {
                &&& i < names@.len()
                &&& is_blackhole(names@[i as int]@)
                &&& forall|j: int| 0 <= j < i ==> !is_blackhole((#[trigger] names@[j])@)
            },
            None => forall|j: int| 0 <= j < names@.len() ==> !is_blackhole((#[trigger] names@[j])@),
        },
{
    let mut i: usize = 0;
    while i < names.len()
        invariant
            i <= names@.len(),
            forall|j: int| 0 <= j < i ==> !is_blackhole((#[trigger] names@[j])@),
        decreases names@.len() - i,
    {
        if contains(&names[i], "BlackHole") {
            return Some(i);
        }
        i += 1;
    }
    None
}

/// Whether a device is a BlackHole loopback other than the excluded one.
pub open spec fn is_other_blackhole(name: Seq<char>, exclude: Option<Seq<char>>) -> bool {
    is_blackhole(name) && exclude != Some(name)
}

/// The first BlackHole input other than `exclude`, or the first BlackHole input where there is no
/// other. BlackHole hands what is written to it to its readers, so a chain that reads the device
/// that another one writes would play the user's own voice back.
pub fn find_blackhole_input_excluding(names: &Vec<String>, exclude: &Option<String>) -> (at: Option<
    usize,
>)
    ensures
        ({
            let ex = text_of(*exclude);
            match at {
                Some(i) => {
                    &&& i < names@.len()
                    &&& is_blackhole(names@[i as int]@)
                    &&& is_other_blackhole(names@[i as int]@, ex) ==> forall|j: int|
                        0 <= j < i ==> !is_other_blackhole((#[trigger] names@[j])@, ex)
                    &&& !is_other_blackhole(names@[i as int]@, ex) ==> {
                        &&& forall|j: int|
                            0 <= j < names@.len() ==> !is_other_blackhole(
                                (#[trigger] names@[j])@,
                                ex,
                            )
                        &&& forall|j: int| 0 <= j < i ==> !is_blackhole((#[trigger] names@[j])@)
                    }
                },
                None => forall|j: int|
                    0 <= j < names@.len() ==> !is_blackhole((#[trigger] names@[j])@),
            }
        }),
{
    let ghost ex = text_of(*exclude);
    let mut i: usize = 0;
    while i < names.len()
        invariant
            i <= names@.len(),
            ex == text_of(*exclude),
            forall|j: int|
                0 <= j < i ==> !is_other_blackhole((#[trigger] names@[j])@, ex),
        decreases names@.len() - i,
    {
        if contains(&names[i], "BlackHole") {
            let excluded = match exclude {
                Some(e) => names[i] == *e,
                None => false,
            };
            if !excluded {
                return Some(i);
            }
        }
        i += 1;
    }
    find_blackhole_output(names)
}

/// Two BlackHole devices keep the chains apart: where a BlackHole input other than the excluded
/// device exists, the one that is found is not the excluded device.
pub proof fn lemma_two_devices_keep_apart(names: Seq<String>, exclude: Seq<char>, k: int, i: int)
    requires
        0 <= k < names.len(),
        is_other_blackhole(names[k]@, Some(exclude)),
        0 <= i < names.len(),
        !is_other_blackhole(names[i]@, Some(exclude)) ==> forall|j: int|
            0 <= j < names.len() ==> !is_other_blackhole((#[trigger] names[j])@, Some(exclude)),
    ensures
        names[i]@ != exclude,
{
}

/// The titles of a device menu on macOS: the default, then every device that is no BlackHole.
pub open spec fn titles_of(names: Seq<Seq<char>>) -> Seq<Seq<char>> {
    seq!["Default"@] + names.filter(|n: Seq<char>| !is_blackhole(n))
}

/// The titles of a device menu on macOS.
pub fn menu_titles(names: &Vec<String>) -> (titles: Vec<String>)
    ensures
        texts(titles@) == titles_of(texts(names@)),
{
    let mut titles: Vec<String> = Vec::new();
    titles.push("Default".to_owned());
    let ghost all = texts(names@);
    let ghost f = |n: Seq<char>| !is_blackhole(n);
    proof {
        reveal(Seq::filter);
        assert(all.take(0).filter(f) =~= Seq::empty());
        assert(texts(titles@) =~= seq!["Default"@] + all.take(0).filter(f));
    }
    let mut i: usize = 0;
    while i < names.len()
        invariant
            i <= names@.len(),
            all == texts(names@),
            f == (|n: Seq<char>| !is_blackhole(n)),
            texts(titles@) == seq!["Default"@] + all.take(i as int).filter(f),
        decreases names@.len() - i,
    {
        let ghost before = titles@;
        proof {
            reveal(Seq::filter);
            assert(all.take(i + 1).drop_last() =~= all.take(i as int));
            assert(all.take(i + 1).last() == names@[i as int]@);
        }
        if !contains(&names[i], "BlackHole") {
            titles.push(names[i].clone());
            assert(texts(titles@) =~= texts(before).push(
                names@[i as int]@,
            ));
        }
        i += 1;
        assert(texts(titles@) =~= seq!["Default"@] + all.take(i as int).filter(f));
    }
    assert(all.take(i as int) =~= all);
    titles
}

/// The device name that a menu title stands for; `alias` where nothing is selected or the title
/// is that of the default.
pub open spec fn named_by(title: Option<Seq<char>>, alias: Seq<char>) -> Seq<char> {
    match title {
        Some(t) => if t == "Default"@ {
            alias
        } else {
            t
        },
        None => alias,
    }
}

/// The sink that the selected title stands for.
pub fn selected_sink(title: Option<String>) -> (name: String)
    ensures
        name@ == named_by(
            text_of(title),
            DEFAULT_SINK@,
        ),
{
    match title {
        Some(t) => if t == "Default".to_owned() {
            DEFAULT_SINK.to_owned()
        } else {
            t
        },
        None => DEFAULT_SINK.to_owned(),
    }
}

/// The source that the selected title stands for.
pub fn selected_source(title: Option<String>) -> (name: String)
    ensures
        name@ == named_by(
            text_of(title),
            DEFAULT_SOURCE@,
        ),
{
    match title {
        Some(t) => if t == "Default".to_owned() {
            DEFAULT_SOURCE.to_owned()
        } else {
            t
        },
        None => DEFAULT_SOURCE.to_owned(),
    }
}

/// Devices are kept or left out by their own name alone: each that this application has not made stays, and
/// no other does.
pub proof fn lemma_only_own_devices_go(devices: Seq<DeviceInfo>, d: DeviceInfo)
    ensures
        foreign(devices).contains(d) <==> devices.contains(d) && !contains_text(d.name@, "upalla"@),
        (forall|i: int| 0 <= i < devices.len() ==> !contains_text((#[trigger] devices[i]).name@, "upalla"@))
            ==> foreign(devices) == devices,
    decreases devices.len(),
{
    reveal(Seq::filter);
    if devices.len() > 0 {
        let front = devices.drop_last();
        lemma_only_own_devices_go(front, d);
        let last = devices.last();
        assert(devices =~= front.push(last));
        assert(devices.contains(d) <==> front.contains(d) || d == last) by {
            if devices.contains(d) {
                let i = devices.index_of(d);
                if i < front.len() {
                    assert(front[i] == d);
                }
            }
            if front.contains(d) {
                let i = front.index_of(d);
                assert(devices[i] == d);
            }
            assert(devices[devices.len() - 1] == last);
        }
        let kept = foreign(front);
        assert(foreign(devices) == if contains_text(last.name@, "upalla"@) {
            kept
        } else {
            kept.push(last)
        });
        assert(kept.push(last).contains(d) <==> kept.contains(d) || d == last) by {
            if kept.push(last).contains(d) {
                let i = kept.push(last).index_of(d);
                if i < kept.len() {
                    assert(kept[i] == d);
                }
            }
            if kept.contains(d) {
                let i = kept.index_of(d);
                assert(kept.push(last)[i] == d);
            }
            assert(kept.push(last)[kept.len() as int] == last);
        }
        if forall|i: int|
            0 <= i < devices.len() ==> !contains_text((#[trigger] devices[i]).name@, "upalla"@) {
            assert forall|i: int| 0 <= i < front.len() implies !contains_text(
                (#[trigger] front[i]).name@,
                "upalla"@,
            ) by {
                assert(front[i] == devices[i]);
            }
            assert(devices[devices.len() - 1] == last);
        }
    }
}

/// What stands in for the default: the default itself wherever a listed device bears its name; else the first
/// listed device; and the alias only where nothing is listed.
pub proof fn lemma_listed_default_is_used(
    default: Seq<char>,
    devices: Seq<DeviceInfo>,
    alias: Seq<char>,
    i: int,
)
    ensures
        0 <= i < devices.len() && devices[i].name@ == default && default.len() > 0 ==> resolved(
            default,
            devices,
            alias,
        ) == default,
        devices.len() > 0 && (forall|j: int|
            0 <= j < devices.len() ==> (#[trigger] devices[j]).name@ != default) ==> resolved(
            default,
            devices,
            alias,
        ) == devices[0].name@,
        devices.len() > 0 && default.len() == 0 ==> resolved(default, devices, alias) == devices[0].name@,
        devices.len() == 0 ==> resolved(default, devices, alias) == alias,
{
}

/// What a menu title stands for: the title of the default for the alias, and every other title for itself.
pub proof fn lemma_title_names_its_device(title: Seq<char>, alias: Seq<char>)
    ensures
        named_by(None, alias) == alias,
        named_by(Some("Default"@), alias) == alias,
        title != "Default"@ ==> named_by(Some(title), alias) == title,
{
}

/// Of devices that bear the same name the first one counts, wherever a device is looked up by name.
pub proof fn lemma_first_of_a_name_counts(
    devices: Seq<DeviceInfo>,
    entries: Seq<ComboEntry>,
    names: Seq<String>,
    name: Seq<char>,
    alias: Seq<char>,
    shown: Seq<char>,
    at: int,
    pick: DevicePick,
    k: int,
)
    requires
        display_of(devices, name, shown),
        shows_selected(entries, name, at),
        picks(names, name, alias, pick),
        0 <= k,
    ensures
        k < devices.len() && devices[k].name@ == name && (forall|j: int|
            0 <= j < k ==> (#[trigger] devices[j]).name@ != name) ==> shown == devices[k].description@,
        (forall|j: int| 0 <= j < devices.len() ==> (#[trigger] devices[j]).name@ != name) ==> shown == name,
        k < entries.len() && entries[k].name@ == name && (forall|j: int|
            0 <= j < k ==> (#[trigger] entries[j]).name@ != name) ==> at == k,
        (forall|j: int| 0 <= j < entries.len() ==> (#[trigger] entries[j]).name@ != name) ==> at == 0,
        name == alias || name.len() == 0 ==> pick == DevicePick::Default,
        name != alias && name.len() > 0 && k < names.len() && names[k]@ == name && (forall|j: int|
            0 <= j < k ==> (#[trigger] names[j])@ != name) ==> (pick matches DevicePick::At(i) && i == k),
        name != alias && name.len() > 0 && (forall|j: int|
            0 <= j < names.len() ==> (#[trigger] names[j])@ != name) ==> pick == DevicePick::Missing,
{
    if k < devices.len() && devices[k].name@ == name && (forall|j: int|
        0 <= j < k ==> (#[trigger] devices[j]).name@ != name) {
        assert(has_name(devices, name));
        let i = choose|i: int|
            {
                &&& 0 <= i < devices.len()
                &&& (#[trigger] devices[i]).name@ == name
                &&& devices[i].description@ == shown
                &&& forall|j: int| 0 <= j < i ==> (#[trigger] devices[j]).name@ != name
            };
        assert(i == k);
    }
    if k < entries.len() && entries[k].name@ == name && (forall|j: int|
        0 <= j < k ==> (#[trigger] entries[j]).name@ != name) {
        assert(at == k);
    }
}

/// What a menu offers: the default first, under its own title, and then each device that is no BlackHole
/// device.
pub proof fn lemma_menu_hides_blackhole(names: Seq<Seq<char>>, name: Seq<char>)
    ensures
        titles_of(names)[0] == "Default"@,
        titles_of(names).drop_first().contains(name) <==> names.contains(name) && !contains_text(
            name,
            "BlackHole"@,
        ),
        (forall|i: int| 0 <= i < names.len() ==> !contains_text(#[trigger] names[i], "BlackHole"@))
            ==> titles_of(names) == seq!["Default"@] + names,
    decreases names.len(),
{
    reveal(Seq::filter);
    let kept = names.filter(|n: Seq<char>| !is_blackhole(n));
    assert(titles_of(names).drop_first() =~= kept);
    if names.len() > 0 {
        let front = names.drop_last();
        let last = names.last();
        lemma_menu_hides_blackhole(front, name);
        let before = front.filter(|n: Seq<char>| !is_blackhole(n));
        assert(titles_of(front).drop_first() =~= before);
        assert(names =~= front.push(last));
        assert(names[names.len() - 1] == last);
        assert(names.contains(name) <==> front.contains(name) || name == last) by {
            if names.contains(name) {
                let i = names.index_of(name);
                if i < front.len() {
                    assert(front[i] == name);
                }
            }
            if front.contains(name) {
                assert(names[front.index_of(name)] == name);
            }
        }
        assert(before.push(last).contains(name) <==> before.contains(name) || name == last) by {
            if before.push(last).contains(name) {
                let i = before.push(last).index_of(name);
                if i < before.len() {
                    assert(before[i] == name);
                }
            }
            if before.contains(name) {
                assert(before.push(last)[before.index_of(name)] == name);
            }
            assert(before.push(last)[before.len() as int] == last);
        }
        assert(kept == if contains_text(last, "BlackHole"@) {
            before
        } else {
            before.push(last)
        });
        if forall|i: int| 0 <= i < names.len() ==> !contains_text(#[trigger] names[i], "BlackHole"@) {
            assert forall|i: int| 0 <= i < front.len() implies !contains_text(
                #[trigger] front[i],
                "BlackHole"@,
            ) by {
                assert(front[i] == names[i]);
            }
            assert(titles_of(front).drop_first() =~= front);
            assert(kept =~= names);
        }
    }
}

/// What a list offers: first the default, under its alias and its own line, and then each device in its order,
/// under its name and its description.
pub proof fn lemma_list_entry_by_entry(
    entries: Seq<ComboEntry>,
    devices: Seq<DeviceInfo>,
    alias: Seq<char>,
    shown: Seq<char>,
    i: int,
)
    requires
        lists_entries(entries, devices, alias, shown),
    ensures
        entries.len() == 1 + devices.len(),
        entries[0].name@ == alias,
        entries[0].label@ == "Default ("@ + shown + ")"@,
        1 <= i < entries.len() ==> entries[i].name@ == devices[i - 1].name@ && entries[i].label@
            == devices[i - 1].description@,
{
    if 1 <= i < entries.len() {
        assert(entries[(i - 1) + 1].name@ == devices[i - 1].name@);
    }
}

} // verus!
