//! Finding what the kernel has loaded: programs, maps and pins by name.
//!
//! The names and sizes are this library's choice. They have to be kept equal on the side that
//! declares the program and its maps.

use vstd::prelude::*;
use vstd::string::*;

verus! {

/// Where the maps are pinned.
pub const BPFS_FS_PATH: &'static str = "/sys/fs/bpf/bpfimp";

/// Name of the packet filter.
pub const BPF_PROGRAM: &'static str = "bpfimp";

/// Allowed peers, IPv4.
pub const ALLOWED_V4_MAP: &'static str = "ALLOWED_BUCKETS_V4";

/// Allowed peers, IPv6.
pub const ALLOWED_V6_MAP: &'static str = "ALLOWED_BUCKETS_V6";

/// Blocked sources, IPv4.
pub const BLOCKED_V4_MAP: &'static str = "BLOCKED_BUCKETS_V4";

/// Blocked sources, IPv6.
pub const BLOCKED_V6_MAP: &'static str = "BLOCKED_BUCKETS_V6";

/// Packet counts, IPv4.
pub const PKT_COUNTS_V4_MAP: &'static str = "PACKET_COUNTS_V4";

/// Packet counts, IPv6.
pub const PKT_COUNTS_V6_MAP: &'static str = "PACKET_COUNTS_V6";

/// Buckets of unknown sources, IPv4, under the name that the kernel reports: it keeps fifteen
/// bytes of one, so that the two families share it and differ by the size of their keys.
pub const UNK_BKTS_V4_MAP: &'static str = "UNKNOWN_BUCKETS";

/// Buckets of unknown sources, IPv6, under the name that the kernel reports.
pub const UNK_BKTS_V6_MAP: &'static str = "UNKNOWN_BUCKETS";

/// Ring buffer of events.
pub const EVENTS_MAP: &'static str = "EVENTS";

/// Bytes of a key of the IPv4 maps.
pub const V4_KEY_SIZE: u32 = 4;

/// Bytes of a key of the IPv6 maps.
pub const V6_KEY_SIZE: u32 = 16;

/// A map that the kernel reports as loaded.
pub struct LoadedMap {
    pub id: u32,
    /// `None` for a name that is no text.
    pub name: Option<String>,
    pub key_size: u32,
}

/// Whether something goes by `name`.
pub open spec fn is_named(found: Option<String>, name: Seq<char>) -> bool {
    found matches Some(text) && text@ == name
}

/// Whether a reported map, if it could be read, has the name and the size of keys.
pub open spec fn is_wanted(map: Option<LoadedMap>, name: Seq<char>, key_size: u32) -> bool {
    map matches Some(found) && is_named(found.name, name) && found.key_size == key_size
}

/// Whether a reported map, if it could be read, has the name.
pub open spec fn is_called(map: Option<LoadedMap>, name: Seq<char>) -> bool {
    map matches Some(found) && is_named(found.name, name)
}

fn named(found: &Option<String>, name: &String) -> (yes: bool)
    ensures
        yes == is_named(*found, name@),
{
    match found {
        Some(text) => *text == *name,
        None => false,
    }
}

/// The id of the first map with the name and the size of keys; a map that could not be read
/// is passed over.
pub fn find_map(maps: &[Option<LoadedMap>], name: &str, key_size: u32) -> (id: Option<u32>)
    ensures
        id is None <==> forall|i: int|
            0 <= i < maps@.len() ==> !is_wanted(#[trigger] maps@[i], name@, key_size),
        id matches Some(found) ==> exists|i: int|
            {
                &&& 0 <= i < maps@.len()
                &&& is_wanted(#[trigger] maps@[i], name@, key_size)
                &&& maps@[i]->0.id == found
                &&& forall|j: int| 0 <= j < i ==> !is_wanted(#[trigger] maps@[j], name@, key_size)
            },
{
    let wanted = String::from_str(name);
    let mut i: usize = 0;
    while i < maps.len()
        invariant
            0 <= i <= maps@.len(),
            wanted@ == name@,
            forall|j: int| 0 <= j < i ==> !is_wanted(#[trigger] maps@[j], name@, key_size),
        decreases maps@.len() - i,
    {
        match &maps[i] {
            Some(map) => {
                if named(&map.name, &wanted) && map.key_size == key_size {
                    assert(is_wanted(maps@[i as int], name@, key_size));
                    return Some(map.id);
                }
            },
            None => {},
        }
        i = i + 1;
    }
    None
}

/// The id of the first map with the name; a map that could not be read is passed over.
pub fn find_ringbuf(maps: &[Option<LoadedMap>], name: &str) -> (id: Option<u32>)
    ensures
        id is None <==> forall|i: int|
            0 <= i < maps@.len() ==> !is_called(#[trigger] maps@[i], name@),
        id matches Some(found) ==> exists|i: int|
            {
                &&& 0 <= i < maps@.len()
                &&& is_called(#[trigger] maps@[i], name@)
                &&& maps@[i]->0.id == found
                &&& forall|j: int| 0 <= j < i ==> !is_called(#[trigger] maps@[j], name@)
            },
{
    let wanted = String::from_str(name);
    let mut i: usize = 0;
    while i < maps.len()
        invariant
            0 <= i <= maps@.len(),
            wanted@ == name@,
            forall|j: int| 0 <= j < i ==> !is_called(#[trigger] maps@[j], name@),
        decreases maps@.len() - i,
    {
        match &maps[i] {
            Some(map) => {
                if named(&map.name, &wanted) {
                    assert(is_called(maps@[i as int], name@));
                    return Some(map.id);
                }
            },
            None => {},
        }
        i = i + 1;
    }
    None
}

/// No program of the limiter is loaded.
#[derive(Clone, Copy, Debug, PartialEq, Eq, Structural)]
pub struct NotRunning;

impl NotRunning {
    /// The error in words.
    pub fn message(&self) -> (text: String)
        ensures
            text@ == "bpfimp does not appear to be running"@,
    {
        String::from_str("bpfimp does not appear to be running")
    }
}

/// Whether one of the programs is the packet filter. A program that could not be read stands
/// as `None`, one whose name is no text as `Some(None)`.
pub open spec fn is_running(programs: Seq<Option<Option<String>>>) -> bool {
    exists|i: int|
        0 <= i < programs.len() && (#[trigger] programs[i] matches Some(name) && is_named(
            name,
            BPF_PROGRAM@,
        ))
}

/// Checks that the packet filter is among the loaded programs.
pub fn ensure_running(programs: &[Option<Option<String>>]) -> (running: Result<(), NotRunning>)
    ensures
        running is Ok <==> is_running(programs@),
{
    let name = String::from_str(BPF_PROGRAM);
    let mut i: usize = 0;
    while i < programs.len()
        invariant
            0 <= i <= programs@.len(),
            name@ == BPF_PROGRAM@,
            forall|j: int|
                0 <= j < i ==> !(#[trigger] programs@[j] matches Some(found) && is_named(
                    found,
                    BPF_PROGRAM@,
                )),
        decreases programs@.len() - i,
    {
        match &programs[i] {
            Some(found) => {
                if named(found, &name) {
                    assert(programs@[i as int] == Some(*found));
                    return Ok(());
                }
            },
            None => {},
        }
        i = i + 1;
    }
    Err(NotRunning)
}

/// The path of a pinned map.
pub fn pin_path(name: &str) -> (path: String)
    ensures
        path@ == BPFS_FS_PATH@ + "/"@ + name@,
{
    let mut path = String::from_str(BPFS_FS_PATH);
    path.append("/");
    path.append(name);
    path
}

/// A map is wanted for its name and the size of its keys, and for nothing else.
pub proof fn law_name_and_key_size_pick_the_map(
    map: Option<LoadedMap>,
    name: Seq<char>,
    key_size: u32,
)
    ensures
        is_wanted(map, name, key_size) <==> map is Some && map->0.name is Some
            && map->0.name->0@ == name && map->0.key_size == key_size,
        is_called(map, name) <==> map is Some && map->0.name is Some && map->0.name->0@ == name,
{
}

/// The limiter is running as soon as any program, wherever it stands among them, goes by its
/// name.
pub proof fn law_any_program_of_the_name_counts(programs: Seq<Option<Option<String>>>)
    ensures
        is_running(programs) <==> exists|i: int|
            0 <= i < programs.len() && (#[trigger] programs[i] matches Some(Some(name)) && name@
                == "bpfimp"@),
{
    if is_running(programs) {
        let i = choose|i: int|
            0 <= i < programs.len() && (#[trigger] programs[i] matches Some(name) && is_named(
                name,
                BPF_PROGRAM@,
            ));
        assert(programs[i] matches Some(Some(name)) && name@ == "bpfimp"@);
    }
    if exists|i: int|
        0 <= i < programs.len() && (#[trigger] programs[i] matches Some(Some(name)) && name@
            == "bpfimp"@) {
        let i = choose|i: int|
            0 <= i < programs.len() && (#[trigger] programs[i] matches Some(Some(name)) && name@
                == "bpfimp"@);
        assert(programs[i] matches Some(name) && is_named(name, BPF_PROGRAM@));
    }
}

} // verus!
