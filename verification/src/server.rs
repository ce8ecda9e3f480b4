//! What is asked of the sound server, and how its answers are read.
use vstd::prelude::*;
use vstd::string::*;

use crate::text::{
    chars_of, contains_chars, contains_text, line_views, lines_of, number_of, parse_number,
    split_lines, starts_with, strip_prefix, texts, trim, trimmed_end, trimmed_start,
};

verus! {

/// Name of the virtual sink that applications play to.
pub const SINK_NAME: &'static str = "upalla_sink";

/// Name of the internal sink that carries the denoised microphone.
pub const SRC_SINK_NAME: &'static str = "upalla_src_sink";

/// Name of the virtual source that applications record from.
pub const SRC_VIRTUAL_NAME: &'static str = "upalla_virtual";

/// Name of the source that carries what applications play to the virtual sink.
pub const SINK_MONITOR_NAME: &'static str = "upalla_sink.monitor";

/// Arguments of the null-sink module behind the virtual sink.
pub const SINK_ARGS: &'static str =
    "sink_name=upalla_sink sink_properties=\"device.description='Upalla Denoised Output' device.profile.description='Denoised Output'\"";

/// Arguments of the null-sink module that carries the denoised microphone.
pub const SRC_SINK_ARGS: &'static str =
    "sink_name=upalla_src_sink sink_properties=\"device.description='Upalla Denoised Input Monitor' device.class='filter' state.ignore=true device.profile.description='Denoised Input Monitor'\"";

/// Arguments of the remap-source module that exposes the denoised microphone.
pub const REMAP_ARGS: &'static str =
    "source_name=upalla_virtual source_properties=\"device.description='Upalla Denoised Input' device.profile.description='Denoised Input'\" master=upalla_src_sink.monitor";

/// The module that the lines up to and with this one speak of: a header line names it by its
/// index, and any other line goes on with the same one.
pub open spec fn module_after(current: Option<u32>, line: Seq<char>) -> Option<u32> {
    if starts_with(line, "Module #"@) {
        let index = trimmed_end(trimmed_start(line.skip("Module #"@.len() as int)));
        match number_of(index, u32::MAX as nat) {
            Some(n) => Some(n as u32),
            None => None,
        }
    } else {
        current
    }
}

/// The module that the last of some lines speaks of.
pub open spec fn module_of(lines: Seq<Seq<char>>) -> Option<u32>
    decreases lines.len(),
{
    if lines.len() == 0 {
        None
    } else {
        module_after(module_of(lines.drop_last()), lines.last())
    }
}

/// The modules of this application in a listing: one entry for each line that mentions it and
/// belongs to a module whose index could be read.
pub open spec fn stale_in(lines: Seq<Seq<char>>) -> Seq<u32>
    decreases lines.len(),
{
    if lines.len() == 0 {
        Seq::empty()
    } else {
        let before = stale_in(lines.drop_last());
        match module_of(lines) {
            Some(index) => if contains_text(lines.last(), "upalla"@) {
                before.push(index)
            } else {
                before
            },
            None => before,
        }
    }
}

/// Reads the index in a header line of a module listing.
fn header_index(rest: &Vec<char>) -> (index: Option<u32>)
    ensures
        index == (match number_of(trimmed_end(trimmed_start(rest@)), u32::MAX as nat) {
            Some(n) => Some(n as u32),
            None => None,
        }),
{
    let digits = trim(rest);
    match parse_number(&digits, u32::MAX as usize) {
        Some(n) => Some(n as u32),
        None => None,
    }
}

/// The modules that an earlier run has left behind, read from the server's module listing.
pub fn stale_modules(listing: &str) -> (stale: Vec<u32>)
    ensures
        stale@ == stale_in(lines_of(listing@)),
{
    let lines = split_lines(&chars_of(listing));
    let header = chars_of("Module #");
    let own = chars_of("upalla");
    let mut stale: Vec<u32> = Vec::new();
    let mut current: Option<u32> = None;
    let ghost all = lines_of(listing@);
    let mut i: usize = 0;
    while i < lines.len()
        invariant
            i <= lines@.len() == all.len(),
            all == line_views(lines@),
            header@ == "Module #"@,
            own@ == "upalla"@,
            current == module_of(all.take(i as int)),
            stale@ == stale_in(all.take(i as int)),
        decreases lines@.len() - i,
    {
        proof {
            assert(all.take(i + 1).drop_last() =~= all.take(i as int));
            assert(all.take(i + 1).last() == lines@[i as int]@);
        }
        match strip_prefix(&lines[i], &header) {
            Some(rest) => {
                current = header_index(&rest);
            },
            None => {},
        }
        if contains_chars(&lines[i], &own) {
            match current {
                Some(index) => stale.push(index),
                None => {},
            }
        }
        i += 1;
    }
    assert(all.take(i as int) =~= all);
    stale
}

/// Only modules that a line of the listing ties to this application are unloaded.
pub proof fn lemma_only_own_modules(lines: Seq<Seq<char>>, k: int)
    requires
        0 <= k < stale_in(lines).len(),
    ensures
        exists|i: int|
            {
                &&& 0 < i <= lines.len()
                &&& module_of(#[trigger] lines.take(i)) == Some(stale_in(lines)[k])
                &&& contains_text(lines[i - 1], "upalla"@)
            },
    decreases lines.len(),
{
    let before = lines.drop_last();
    if k < stale_in(before).len() {
        lemma_only_own_modules(before, k);
        let i = choose|i: int|
            {
                &&& 0 < i <= before.len()
                &&& module_of(#[trigger] before.take(i)) == Some(stale_in(before)[k])
                &&& contains_text(before[i - 1], "upalla"@)
            };
        assert(lines.take(i) =~= before.take(i));
        assert(lines[i - 1] == before[i - 1]);
    } else {
        assert(lines.take(lines.len() as int) =~= lines);
        assert(module_of(lines.take(lines.len() as int)) == Some(stale_in(lines)[k]));
    }
}

/// The modules that this run has loaded.
#[derive(Clone, Copy, Debug, PartialEq, Eq, Structural)]
pub struct RegisteredModules {
    pub sink: Option<u32>,
    pub source: Option<u32>,
    pub remap: Option<u32>,
}

/// The index of a loaded module; zero stands for one that is not loaded.
pub fn module_index(index: u32) -> (loaded: Option<u32>)
    ensures
        loaded == (if index == 0 {
            None
        } else {
            Some(index)
        }),
{
    if index == 0 {
        None
    } else {
        Some(index)
    }
}

/// The index as a list of none or one.
pub open spec fn listed(index: Option<u32>) -> Seq<u32> {
    match index {
        Some(i) => seq![i],
        None => Seq::empty(),
    }
}

/// The modules of this application, each after those that it refers to.
#[derive(Clone, Copy, Debug, PartialEq, Eq, Structural)]
pub enum OwnModule {
    /// The virtual sink.
    Sink,
    /// The internal sink that carries the denoised microphone.
    Source,
    /// The virtual source, which reads the monitor of the internal sink.
    Remap,
}

impl OwnModule {
    /// The kind of module that the server loads.
    pub fn module_name(self) -> (name: &'static str)
        ensures
            name@ == (match self {
                OwnModule::Sink => "module-null-sink"@,
                OwnModule::Source => "module-null-sink"@,
                OwnModule::Remap => "module-remap-source"@,
            }),
    {
        match self {
            OwnModule::Sink => "module-null-sink",
            OwnModule::Source => "module-null-sink",
            OwnModule::Remap => "module-remap-source",
        }
    }

    /// Its arguments.
    pub fn args(self) -> (args: &'static str)
        ensures
            args@ == (match self {
                OwnModule::Sink => SINK_ARGS@,
                OwnModule::Source => SRC_SINK_ARGS@,
                OwnModule::Remap => REMAP_ARGS@,
            }),
    {
        match self {
            OwnModule::Sink => SINK_ARGS,
            OwnModule::Source => SRC_SINK_ARGS,
            OwnModule::Remap => REMAP_ARGS,
        }
    }
}

/// The modules in the order in which they are loaded.
pub open spec fn load_sequence() -> Seq<OwnModule> {
    seq![OwnModule::Sink, OwnModule::Source, OwnModule::Remap]
}

/// The modules in the order in which they are loaded.
pub fn load_order() -> (order: Vec<OwnModule>)
    ensures
        order@ == load_sequence(),
{
    vec![OwnModule::Sink, OwnModule::Source, OwnModule::Remap]
}

/// The indices of loaded modules in the order in which they are unloaded.
pub open spec fn unload_sequence(modules: RegisteredModules) -> Seq<u32> {
    listed(modules.remap) + listed(modules.source) + listed(modules.sink)
}

/// Once every module is loaded, the last one loaded is the first one unloaded, and so on back to the
/// first: no module outlives one that it refers to.
pub proof fn lemma_unloaded_backwards(modules: RegisteredModules)
    requires
        modules.sink is Some,
        modules.source is Some,
        modules.remap is Some,
    ensures
        unload_sequence(modules) == load_sequence().map_values(
            |m: OwnModule| modules.index_of(m)->Some_0,
        ).reverse(),
{
    assert(unload_sequence(modules) =~= load_sequence().map_values(
        |m: OwnModule| modules.index_of(m)->Some_0,
    ).reverse());
}

impl RegisteredModules {
    /// The index under which a module is loaded.
    pub open spec fn index_of(&self, module: OwnModule) -> Option<u32> {
        match module {
            OwnModule::Sink => self.sink,
            OwnModule::Source => self.source,
            OwnModule::Remap => self.remap,
        }
    }

    /// Takes note of the server's answer to a request to load a module.
    pub fn loaded(&mut self, module: OwnModule, index: u32)
        ensures
            final(self).index_of(module) == (if index == 0 {
                None
            } else {
                Some(index)
            }),
            forall|other: OwnModule|
                other != module ==> #[trigger] final(self).index_of(other) == old(self).index_of(
                    other,
                ),
    {
        let index = module_index(index);
        match module {
            OwnModule::Sink => self.sink = index,
            OwnModule::Source => self.source = index,
            OwnModule::Remap => self.remap = index,
        }
    }

    /// No module.
    pub fn none() -> (modules: Self)
        ensures
            modules.sink is None,
            modules.source is None,
            modules.remap is None,
    {
        RegisteredModules { sink: None, source: None, remap: None }
    }

    /// Forgets the modules and returns them in the order in which they are unloaded: the remapped
    /// source reads the monitor of its sink, so it goes before it.
    pub fn unload_order(&mut self) -> (order: Vec<u32>)
        ensures
            order@ == unload_sequence(*old(self)),
            final(self).sink is None,
            final(self).source is None,
            final(self).remap is None,
    {
        let mut order: Vec<u32> = Vec::new();
        if let Some(remap) = self.remap {
            order.push(remap);
        }
        assert(order@ =~= listed(self.remap));
        if let Some(source) = self.source {
            order.push(source);
        }
        assert(order@ =~= listed(self.remap) + listed(self.source));
        if let Some(sink) = self.sink {
            order.push(sink);
        }
        assert(order@ =~= listed(self.remap) + listed(self.source) + listed(self.sink));
        *self = RegisteredModules::none();
        order
    }
}

/// The commands that make a muted source audible again.
pub fn restore_source(name: &str) -> (commands: Vec<Vec<String>>)
    ensures
        commands@.len() == 2,
        texts(commands@[0]@) == seq!["set-source-mute"@, name@, "0"@],
        texts(commands@[1]@) == seq!["set-source-volume"@, name@, "100%"@],
{
    let mute = vec!["set-source-mute".to_owned(), name.to_owned(), "0".to_owned()];
    let volume = vec!["set-source-volume".to_owned(), name.to_owned(), "100%".to_owned()];
    assert(texts(mute@) =~= seq!["set-source-mute"@, name@, "0"@]);
    assert(texts(volume@) =~= seq!["set-source-volume"@, name@, "100%"@]);
    vec![mute, volume]
}

/// The commands that make a muted sink audible again.
pub fn restore_sink(name: &str) -> (commands: Vec<Vec<String>>)
    ensures
        commands@.len() == 2,
        texts(commands@[0]@) == seq!["set-sink-mute"@, name@, "0"@],
        texts(commands@[1]@) == seq!["set-sink-volume"@, name@, "100%"@],
{
    let mute = vec!["set-sink-mute".to_owned(), name.to_owned(), "0".to_owned()];
    let volume = vec!["set-sink-volume".to_owned(), name.to_owned(), "100%".to_owned()];
    assert(texts(mute@) =~= seq!["set-sink-mute"@, name@, "0"@]);
    assert(texts(volume@) =~= seq!["set-sink-volume"@, name@, "100%"@]);
    vec![mute, volume]
}

/// Whether a device with this mute switch and these channels, each at zero volume or not, is
/// silent on some channel.
pub fn is_silenced(mute: bool, channel_at_zero: &Vec<bool>) -> (silenced: bool)
    ensures
        silenced == (mute || exists|i: int|
            0 <= i < channel_at_zero@.len() && #[trigger] channel_at_zero@[i]),
{
    if mute {
        return true;
    }
    let mut i: usize = 0;
    while i < channel_at_zero.len()
        invariant
            i <= channel_at_zero@.len(),
            forall|j: int| 0 <= j < i ==> !(#[trigger] channel_at_zero@[j]),
        decreases channel_at_zero@.len() - i,
    {
        if channel_at_zero[i] {
            return true;
        }
        i += 1;
    }
    false
}

/// Whether any stream plays to the sink with this index, given the sink of every stream; none does to a
/// sink that was not found.
pub fn has_sink_inputs(sink: Option<u32>, inputs: &Vec<u32>) -> (active: bool)
    ensures
        active == (sink matches Some(index) && inputs@.contains(index)),
{
    let index: u32 = match sink {
        Some(index) => index,
        None => return false,
    };
    let mut i: usize = 0;
    while i < inputs.len()
        invariant
            i <= inputs@.len(),
            sink == Some(index),
            forall|j: int| 0 <= j < i ==> inputs@[j] != index,
        decreases inputs@.len() - i,
    {
        if inputs[i] == index {
            assert(inputs@[i as int] == index);
            return true;
        }
        i += 1;
    }
    false
}

/// A stream that records from a source, and what its application says of itself.
pub struct SourceOutput {
    pub source: u32,
    pub app: String,
    pub media: String,
    pub binary: String,
    pub pid: String,
}

/// How a recording stream is described: by its application, where that is named, and by its media,
/// binary and process.
pub open spec fn description_of(
    app: Seq<char>,
    media: Seq<char>,
    binary: Seq<char>,
    pid: Seq<char>,
) -> Seq<char> {
    let details = "media="@ + media + ", bin="@ + binary + ", pid="@ + pid;
    if app.len() > 0 {
        app + " ("@ + details + ")"@
    } else {
        details
    }
}

/// How a recording stream is described.
pub fn describe(output: &SourceOutput) -> (text: String)
    ensures
        text@ == description_of(output.app@, output.media@, output.binary@, output.pid@),
{
    let named = output.app.as_str().unicode_len() > 0;
    let mut details = "media=".to_owned();
    details.append(output.media.as_str());
    details.append(", bin=");
    details.append(output.binary.as_str());
    details.append(", pid=");
    details.append(output.pid.as_str());
    if !named {
        return details;
    }
    let mut text = output.app.clone();
    text.append(" (");
    text.append(details.as_str());
    text.append(")");
    text
}

/// The streams that record from one source.
pub open spec fn recording_from(outputs: Seq<SourceOutput>, source: u32) -> Seq<SourceOutput> {
    outputs.filter(|o: SourceOutput| o.source == source)
}

/// The descriptions of the streams that record from the source with this index, in their order; none
/// records from a source that was not found.
pub fn source_output_descriptions(source: Option<u32>, outputs: &Vec<SourceOutput>) -> (descriptions:
    Vec<String>)
    ensures
        source is None ==> descriptions@.len() == 0,
        source matches Some(index) ==> texts(descriptions@) == recording_from(
            outputs@,
            index,
        ).map_values(|o: SourceOutput| description_of(o.app@, o.media@, o.binary@, o.pid@)),
{
    let mut descriptions: Vec<String> = Vec::new();
    let source: u32 = match source {
        Some(index) => index,
        None => return descriptions,
    };
    let ghost d = |o: SourceOutput| description_of(o.app@, o.media@, o.binary@, o.pid@);
    proof {
        reveal(Seq::filter);
        assert(outputs@.take(0) =~= Seq::empty());
        assert(recording_from(outputs@.take(0), source).map_values(d) =~= texts(descriptions@));
    }
    let mut i: usize = 0;
    while i < outputs.len()
        invariant
            i <= outputs@.len(),
            d == (|o: SourceOutput| description_of(o.app@, o.media@, o.binary@, o.pid@)),
            texts(descriptions@) == recording_from(outputs@.take(i as int), source).map_values(d),
        decreases outputs@.len() - i,
    {
        let ghost before = descriptions@;
        let ghost kept = recording_from(outputs@.take(i as int), source);
        proof {
            reveal(Seq::filter);
            assert(outputs@.take(i + 1).drop_last() =~= outputs@.take(i as int));
            assert(outputs@.take(i + 1).last() == outputs@[i as int]);
        }
        if outputs[i].source == source {
            descriptions.push(describe(&outputs[i]));
            assert(recording_from(outputs@.take(i + 1), source) =~= kept.push(outputs@[i as int]));
            assert(kept.push(outputs@[i as int]).map_values(d) =~= kept.map_values(d).push(
                d(outputs@[i as int]),
            ));
            assert(texts(descriptions@) =~= texts(before).push(d(outputs@[i as int])));
        }
        i += 1;
    }
    assert(outputs@.take(i as int) =~= outputs@);
    descriptions
}

/// A header names the module of all lines that follow it, up to the next header: whatever came before, and
/// whatever those lines say.
pub proof fn lemma_header_names_the_lines_below(
    before: Seq<Seq<char>>,
    rest: Seq<char>,
    body: Seq<Seq<char>>,
)
    requires
        forall|i: int| 0 <= i < body.len() ==> !starts_with(#[trigger] body[i], "Module #"@),
    ensures
        module_of(before.push("Module #"@ + rest) + body) == (match number_of(
            trimmed_end(trimmed_start(rest)),
            u32::MAX as nat,
        ) {
            Some(n) => Some(n as u32),
            None => None,
        }),
    decreases body.len(),
{
    let header = "Module #"@ + rest;
    let all = before.push(header) + body;
    if body.len() == 0 {
        assert(all =~= before.push(header));
        assert(all.drop_last() =~= before);
        assert(header.subrange(0, "Module #"@.len() as int) =~= "Module #"@);
        assert(header.skip("Module #"@.len() as int) =~= rest);
    } else {
        let front = body.drop_last();
        assert(all.drop_last() =~= before.push(header) + front);
        assert(all.last() == body[body.len() - 1]);
        assert forall|i: int| 0 <= i < front.len() implies !starts_with(
            #[trigger] front[i],
            "Module #"@,
        ) by {
            assert(front[i] == body[i]);
        }
        lemma_header_names_the_lines_below(before, rest, front);
    }
}

/// Every line that mentions this application is found: the module that it belongs to is listed. What further
/// lines add comes behind what was listed before.
pub proof fn lemma_every_mention_is_listed(lines: Seq<Seq<char>>, i: int, index: u32)
    requires
        0 <= i < lines.len(),
    ensures
        stale_in(lines.take(i)).is_prefix_of(stale_in(lines)),
        stale_in(lines).len() <= lines.len(),
        contains_text(lines[i], "upalla"@) && module_of(lines.take(i + 1)) == Some(index) ==> stale_in(
            lines,
        ).contains(index),
    decreases lines.len(),
{
    let front = lines.drop_last();
    assert(lines.take(lines.len() as int) =~= lines);
    if i < front.len() {
        lemma_every_mention_is_listed(front, i, index);
        assert(front.take(i) =~= lines.take(i));
        assert(front.take(i + 1) =~= lines.take(i + 1));
        assert(front[i] == lines[i]);
        assert(stale_in(front).is_prefix_of(stale_in(lines)));
        if stale_in(front).contains(index) {
            let k = stale_in(front).index_of(index);
            assert(stale_in(lines)[k] == index);
        }
    } else {
        assert(lines.take(i) =~= front);
        if front.len() > 0 {
            lemma_every_mention_is_listed(front, 0, index);
        }
        if contains_text(lines[i], "upalla"@) && module_of(lines.take(i + 1)) == Some(index) {
            assert(stale_in(lines) == stale_in(front).push(index));
            assert(stale_in(lines)[stale_in(front).len() as int] == index);
        }
    }
}

/// The streams of a source are all that record from it, and no other.
pub proof fn lemma_streams_of_a_source(outputs: Seq<SourceOutput>, source: u32, o: SourceOutput)
    ensures
        recording_from(outputs, source).contains(o) <==> outputs.contains(o) && o.source == source,
        (forall|i: int| 0 <= i < outputs.len() ==> (#[trigger] outputs[i]).source == source)
            ==> recording_from(outputs, source) == outputs,
    decreases outputs.len(),
{
    reveal(Seq::filter);
    if outputs.len() > 0 {
        let front = outputs.drop_last();
        let last = outputs.last();
        lemma_streams_of_a_source(front, source, o);
        assert(outputs =~= front.push(last));
        assert(outputs[outputs.len() - 1] == last);
        let kept = recording_from(front, source);
        assert(outputs.contains(o) <==> front.contains(o) || o == last) by {
            if outputs.contains(o) {
                let i = outputs.index_of(o);
                if i < front.len() {
                    assert(front[i] == o);
                }
            }
            if front.contains(o) {
                assert(outputs[front.index_of(o)] == o);
            }
        }
        assert(kept.push(last).contains(o) <==> kept.contains(o) || o == last) by {
            if kept.push(last).contains(o) {
                let i = kept.push(last).index_of(o);
                if i < kept.len() {
                    assert(kept[i] == o);
                }
            }
            if kept.contains(o) {
                assert(kept.push(last)[kept.index_of(o)] == o);
            }
            assert(kept.push(last)[kept.len() as int] == last);
        }
        assert(recording_from(outputs, source) == if last.source == source {
            kept.push(last)
        } else {
            kept
        });
        if forall|i: int| 0 <= i < outputs.len() ==> (#[trigger] outputs[i]).source == source {
            assert forall|i: int| 0 <= i < front.len() implies (#[trigger] front[i]).source == source by {
                assert(front[i] == outputs[i]);
            }
        }
    }
}

/// In which order modules go: the remapped source first, then the source, then the sink, and each only where
/// it is there.
pub proof fn lemma_sink_goes_last(remap: u32, source: u32, sink: u32)
    ensures
        unload_sequence(
            RegisteredModules { sink: Some(sink), source: Some(source), remap: Some(remap) },
        ) == seq![remap, source, sink],
        unload_sequence(RegisteredModules { sink: Some(sink), source: Some(source), remap: None }) == seq![
            source,
            sink,
        ],
        unload_sequence(RegisteredModules { sink: Some(sink), source: None, remap: None }) == seq![sink],
        unload_sequence(RegisteredModules { sink: None, source: None, remap: None }).len() == 0,
{
}

/// How a stream is described: under the name of its application, with the details in brackets; by the details
/// alone where the application gives no name.
pub proof fn lemma_description_names_the_application(
    app: Seq<char>,
    media: Seq<char>,
    binary: Seq<char>,
    pid: Seq<char>,
)
    ensures
        ({
            let details = description_of(Seq::empty(), media, binary, pid);
            &&& details == "media="@ + media + ", bin="@ + binary + ", pid="@ + pid
            &&& app.len() > 0 ==> description_of(app, media, binary, pid) == app + " ("@ + details + ")"@
        }),
{
}

} // verus!
