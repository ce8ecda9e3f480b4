//! Which other processes use a CoreAudio device.
//!
//! The system describes processes by properties that are addressed by four-character codes. The
//! queries themselves are the caller's; the answers come here as plain values.
use vstd::prelude::*;

use crate::text::text_of;

verus! {

/// Object that stands for the whole audio system.
pub const SYSTEM_OBJECT: u32 = 1;

/// Property scope `glob`.
pub const SCOPE_GLOBAL: u32 = 0x676c_6f62;

/// Property scope `inpt`.
pub const SCOPE_INPUT: u32 = 0x696e_7074;

/// Property scope `outp`.
pub const SCOPE_OUTPUT: u32 = 0x6f75_7470;

/// Main element of a property.
pub const ELEMENT_MAIN: u32 = 0;

/// Property `dev#`: the devices of the system.
pub const PROP_DEVICES: u32 = 0x6465_7623;

/// Property `lnam`: the name of an object.
pub const PROP_NAME: u32 = 0x6c6e_616d;

/// Property `prs#`: the processes that use audio.
pub const PROP_PROCESS_LIST: u32 = 0x7072_7323;

/// Property `ppid`: the id of a process.
pub const PROP_PROCESS_PID: u32 = 0x7070_6964;

/// Property `piri`: whether a process is capturing.
pub const PROP_PROCESS_RUNNING_INPUT: u32 = 0x7069_7269;

/// Property `piro`: whether a process is playing.
pub const PROP_PROCESS_RUNNING_OUTPUT: u32 = 0x7069_726f;

/// Property `pdv#`: the devices that a process uses.
pub const PROP_PROCESS_DEVICES: u32 = 0x7064_7623;

/// The number that a four-character code stands for, its first character being the most
/// significant byte.
pub open spec fn code_of(code: Seq<u8>) -> int {
    0x100_0000 * code[0] + 0x1_0000 * code[1] + 0x100 * code[2] + code[3]
}

/// The number that a four-character code stands for.
pub fn fourcc(code: &[u8; 4]) -> (n: u32)
    ensures
        n == code_of(code@),
{
    0x100_0000 * code[0] as u32 + 0x1_0000 * code[1] as u32 + 0x100 * code[2] as u32
        + code[3] as u32
}

/// Where a property is found.
#[derive(Clone, Copy, Debug, PartialEq, Eq, Structural)]
pub struct AudioObjectPropertyAddress {
    pub selector: u32,
    pub scope: u32,
    pub element: u32,
}

impl AudioObjectPropertyAddress {
    /// The main element of a property.
    pub fn new(selector: u32, scope: u32) -> (address: Self)
        ensures
            address.selector == selector,
            address.scope == scope,
            address.element == ELEMENT_MAIN,
    {
        AudioObjectPropertyAddress { selector, scope, element: ELEMENT_MAIN }
    }
}

/// Which side of a device another process uses.
#[derive(Clone, Copy, Debug, PartialEq, Eq, Structural)]
pub enum Direction {
    /// Reading from the device: for BlackHole, an application that uses it as a microphone.
    Capture,
    /// Writing to the device: for BlackHole, an application that uses it as a speaker.
    Playback,
}

impl Direction {
    /// The property that says whether a process is running in this direction.
    pub fn running_selector(self) -> (selector: u32)
        ensures
            selector == (match self {
                Direction::Capture => PROP_PROCESS_RUNNING_INPUT,
                Direction::Playback => PROP_PROCESS_RUNNING_OUTPUT,
            }),
    {
        match self {
            Direction::Capture => PROP_PROCESS_RUNNING_INPUT,
            Direction::Playback => PROP_PROCESS_RUNNING_OUTPUT,
        }
    }

    /// The scope in which a process lists its devices of this direction.
    pub fn scope(self) -> (scope: u32)
        ensures
            scope == (match self {
                Direction::Capture => SCOPE_INPUT,
                Direction::Playback => SCOPE_OUTPUT,
            }),
    {
        match self {
            Direction::Capture => SCOPE_INPUT,
            Direction::Playback => SCOPE_OUTPUT,
        }
    }
}

/// How many object ids an answer of `size` bytes holds.
pub fn object_count(size: u32) -> (n: usize)
    ensures
        n == size / 4,
{
    (size / 4) as usize
}

/// The objects of a property that lists objects; `size` is how many bytes its answer takes, where the
/// property is supported, and `read` gives the bytes that were filled in and the ids, at most as many as
/// it is asked for. Nothing is read where there is nothing to read.
pub fn get_object_list<F: FnOnce(usize) -> Option<(u32, Vec<u32>)>>(size: Option<u32>, read: F) -> (ids:
    Option<Vec<u32>>)
    requires
        size matches Some(n) ==> (n / 4 > 0 ==> read.requires(((n / 4) as usize,))),
    ensures
        match size {
            None => ids is None,
            Some(n) => if n / 4 == 0 {
                ids matches Some(list) && list@.len() == 0
            } else {
                exists|answer: Option<(u32, Vec<u32>)>|
                    {
                        &&& #[trigger] read.ensures(((n / 4) as usize,), answer)
                        &&& match answer {
                            None => ids is None,
                            Some((filled, all)) => ids matches Some(list) && list@ == cut(
                                all@,
                                (filled / 4) as nat,
                            ),
                        }
                    }
            },
        },
{
    let size: u32 = match size {
        Some(n) => n,
        None => return None,
    };
    let count: usize = object_count(size);
    if count == 0 {
        return Some(Vec::new());
    }
    match read(count) {
        None => None,
        Some((filled, ids)) => {
            let mut ids = ids;
            ids.truncate(object_count(filled));
            Some(ids)
        },
    }
}

/// The first `n` of some ids; all of them where there are fewer.
pub open spec fn cut(ids: Seq<u32>, n: nat) -> Seq<u32> {
    if n <= ids.len() {
        ids.take(n as int)
    } else {
        ids
    }
}

/// A device of the system, and its name where it has one.
pub struct NamedDevice {
    pub id: u32,
    pub name: Option<String>,
}

/// The id of the first device with exactly this name; none where the devices are not known.
pub fn find_device_by_name(devices: &Option<Vec<NamedDevice>>, name: &String) -> (id: Option<u32>)
    ensures
        match id {
            Some(id) => devices matches Some(list) && exists|i: int|
                {
                    &&& 0 <= i < list@.len()
                    &&& (#[trigger] list@[i]).id == id
                    &&& text_of(list@[i].name) == Some(name@)
                    &&& forall|j: int|
                        0 <= j < i ==> text_of((#[trigger] list@[j]).name) != Some(name@)
                },
            None => devices matches Some(list) ==> forall|j: int|
                0 <= j < list@.len() ==> text_of((#[trigger] list@[j]).name) != Some(name@),
        },
{
    let list = match devices {
        Some(list) => list,
        None => return None,
    };
    let mut i: usize = 0;
    while i < list.len()
        invariant
            i <= list@.len(),
            *devices == Some(*list),
            forall|j: int| 0 <= j < i ==> text_of((#[trigger] list@[j]).name) != Some(name@),
        decreases list@.len() - i,
    {
        let same = match &list[i].name {
            Some(n) => *n == *name,
            None => false,
        };
        if same {
            assert(text_of(list@[i as int].name) == Some(name@));
            return Some(list[i].id);
        }
        i += 1;
    }
    None
}

/// Whether the system reports on processes: it does where it answers with a list of them.
pub fn detection_supported(processes: &Option<Vec<u32>>) -> (supported: bool)
    ensures
        supported == (*processes is Some),
{
    processes.is_some()
}

/// What the system says of one process; each answer may be missing.
pub struct ProcessInfo {
    pub pid: Option<u32>,
    /// Not zero while the process is running in the direction that was asked about.
    pub running: Option<u32>,
    /// The devices that the process uses in that direction.
    pub devices: Option<Vec<u32>>,
}

/// Whether a process other than `own_pid` is running and uses `device`.
pub open spec fn uses_device(process: ProcessInfo, own_pid: u32, device: u32) -> bool {
    &&& process.pid != Some(own_pid)
    &&& process.running matches Some(r) && r != 0
    &&& process.devices matches Some(d) && d@.contains(device)
}

/// Whether a list of ids holds this one.
fn holds(ids: &Vec<u32>, id: u32) -> (found: bool)
    ensures
        found == ids@.contains(id),
{
    let mut i: usize = 0;
    while i < ids.len()
        invariant
            i <= ids@.len(),
            forall|j: int| 0 <= j < i ==> ids@[j] != id,
        decreases ids@.len() - i,
    {
        if ids[i] == id {
            assert(ids@[i as int] == id);
            return true;
        }
        i += 1;
    }
    false
}

/// Whether a process other than `own_pid` is using `device`; none where the processes are not
/// known.
pub fn has_external_user(
    processes: &Option<Vec<ProcessInfo>>,
    own_pid: u32,
    device: u32,
) -> (used: Option<bool>)
    ensures
        used is Some <==> *processes is Some,
        used matches Some(u) ==> u == exists|i: int|
            0 <= i < processes->Some_0@.len() && uses_device(
                #[trigger] processes->Some_0@[i],
                own_pid,
                device,
            ),
{
    let list = match processes {
        Some(list) => list,
        None => return None,
    };
    let mut i: usize = 0;
    while i < list.len()
        invariant
            i <= list@.len(),
            *processes == Some(*list),
            forall|j: int|
                0 <= j < i ==> !uses_device(#[trigger] list@[j], own_pid, device),
        decreases list@.len() - i,
    {
        let process = &list[i];
        let own = match process.pid {
            Some(pid) => pid == own_pid,
            None => false,
        };
        let running = match process.running {
            Some(r) => r != 0,
            None => false,
        };
        if !own && running {
            if let Some(devices) = &process.devices {
                if holds(devices, device) {
                    assert(uses_device(processes->Some_0@[i as int], own_pid, device));
                    return Some(true);
                }
            }
        }
        i += 1;
    }
    Some(false)
}

/// This process never counts as a user of the device: without another one, demand is absent.
pub proof fn lemma_own_process_is_no_user(process: ProcessInfo, own_pid: u32, device: u32)
    requires
        process.pid == Some(own_pid),
    ensures
        !uses_device(process, own_pid, device),
{
}

/// A four-character code has its first character in the highest byte.
pub proof fn lemma_first_character_is_highest(code: Seq<u8>)
    requires
        code.len() == 4,
    ensures
        code_of(code) / 16777216 == code[0],
        code_of(code) / 65536 % 256 == code[1],
        code_of(code) / 256 % 256 == code[2],
        code_of(code) % 256 == code[3],
        0 <= code_of(code) <= 0xffff_ffff,
{
}

/// Cutting a list keeps its front, as much of it as there is and was asked for.
pub proof fn lemma_cut_keeps_the_front(ids: Seq<u32>, n: nat, i: int)
    ensures
        cut(ids, n).len() <= n,
        cut(ids, n).len() <= ids.len(),
        cut(ids, n).len() == n || cut(ids, n).len() == ids.len(),
        0 <= i < cut(ids, n).len() ==> cut(ids, n)[i] == ids[i],
{
}

/// A process uses a device where it is another process, runs, and lists the device at whatever place.
pub proof fn lemma_user_of_a_device(process: ProcessInfo, own_pid: u32, device: u32, i: int)
    ensures
        process.pid != Some(own_pid) && (process.running matches Some(r) && r != 0) && (
        process.devices matches Some(d) && 0 <= i < d@.len() && d@[i] == device) ==> uses_device(
            process,
            own_pid,
            device,
        ),
        process.running is None || process.running == Some(0u32) ==> !uses_device(process, own_pid, device),
        process.devices is None ==> !uses_device(process, own_pid, device),
        (process.devices matches Some(d) && forall|j: int| 0 <= j < d@.len() ==> #[trigger] d@[j] != device)
            ==> !uses_device(process, own_pid, device),
{
}

} // verus!
