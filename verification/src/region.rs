//! Anvil region files (`.mca`): 32 x 32 chunks per file, an 8 KiB header of
//! 1024 four-byte locations (three bytes of offset in 4 KiB sectors, one
//! byte of length in sectors) followed by 1024 four-byte timestamps.
//! Reading and writing the file is the program's; the layout is read here.
use vstd::prelude::*;
use crate::paths::{file_name, file_name_spec, join, join_spec, PathError};
use crate::text::{chars_of, ends_with, ends_with_seq, same_text};

verus! {

#[derive(Debug)]
pub struct ChunkInfo {
    pub x: u32,
    pub z: u32,
    pub offset_sectors: u32,
    pub length_sectors: u32,
    pub data_length: u32,
    pub compression: u8,
    pub timestamp: u32,
}

#[derive(Debug)]
pub struct RegionFileInfo {
    pub path: String,
    pub size: u64,
    pub chunk_count: u32,
}

/// A chunk that the location table says is present, and where its data starts.
#[derive(Debug)]
pub struct ChunkSlot {
    pub index: u32,
    pub x: u32,
    pub z: u32,
    pub offset_sectors: u32,
    pub length_sectors: u32,
    pub timestamp: u32,
    /// `offset_sectors * 4096`.
    pub byte_offset: u64,
}

pub open spec fn be24(a: u8, b: u8, c: u8) -> int {
    a as int * 65536 + b as int * 256 + c as int
}

pub open spec fn be32(a: u8, b: u8, c: u8, d: u8) -> int {
    a as int * 16777216 + b as int * 65536 + c as int * 256 + d as int
}

/// The sector offset of chunk `i` in the location table.
pub open spec fn slot_offset(loc: Seq<u8>, i: int) -> int {
    be24(loc[4 * i], loc[4 * i + 1], loc[4 * i + 2])
}

/// The sector count of chunk `i` in the location table.
pub open spec fn slot_length(loc: Seq<u8>, i: int) -> int {
    loc[4 * i + 3] as int
}

pub open spec fn slot_present(loc: Seq<u8>, i: int) -> bool {
    slot_offset(loc, i) != 0 && slot_length(loc, i) != 0
}

pub open spec fn slot_timestamp(ts: Seq<u8>, i: int) -> int {
    be32(ts[4 * i], ts[4 * i + 1], ts[4 * i + 2], ts[4 * i + 3])
}

/// The indices below `n` of the chunks present, in order.
pub open spec fn present_slots(loc: Seq<u8>, n: int) -> Seq<int>
    decreases n,
{
    if n <= 0 {
        Seq::empty()
    } else if slot_present(loc, n - 1) {
        present_slots(loc, n - 1).push(n - 1)
    } else {
        present_slots(loc, n - 1)
    }
}

fn read_be24(loc: &[u8], off: usize) -> (v: u32)
    requires
        off + 2 < loc@.len(),
    ensures
        v == be24(loc@[off as int], loc@[off + 1], loc@[off + 2]),
{
    (loc[off] as u32) * 65536 + (loc[off + 1] as u32) * 256 + (loc[off + 2] as u32)
}

fn read_be32(b: &[u8], off: usize) -> (v: u32)
    requires
        off + 3 < b@.len(),
    ensures
        v == be32(b@[off as int], b@[off + 1], b@[off + 2], b@[off + 3]),
{
    (b[off] as u32) * 16777216 + (b[off + 1] as u32) * 65536 + (b[off + 2] as u32) * 256 + (b[off + 3] as u32)
}

/// The number of chunks present in a region file's location table.
pub fn count_chunks(hdr: &[u8]) -> (n: u32)
    requires
        hdr@.len() >= 4096,
    ensures
        n == present_slots(hdr@, 1024).len(),
{
    let mut count: u32 = 0;
    let mut i: usize = 0;
    while i < 1024
        invariant
            hdr@.len() >= 4096,
            i <= 1024,
            count == present_slots(hdr@, i as int).len(),
            count <= i,
        decreases 1024 - i,
    {
        let off = i * 4;
        let entry = read_be24(hdr, off);
        let len = hdr[off + 3];
        if entry != 0 && len != 0 {
            count = count + 1;
        }
        i = i + 1;
    }
    count
}

/// The number of chunks in a region file, from the bytes at its start: none
/// when the file is shorter than the location table.
pub fn header_chunk_count(hdr: &[u8]) -> (n: u32)
    ensures
        hdr@.len() < 4096 ==> n == 0,
        hdr@.len() >= 4096 ==> n == present_slots(hdr@, 1024).len(),
{
    if hdr.len() < 4096 {
        return 0;
    }
    count_chunks(hdr)
}

/// The chunks present in a region file, from its location and timestamp tables.
pub fn chunk_slots(loc: &[u8], ts: &[u8]) -> (r: Vec<ChunkSlot>)
    requires
        loc@.len() == 4096,
        ts@.len() == 4096,
    ensures
        r@.len() == present_slots(loc@, 1024).len(),
        forall|k: int| 0 <= k < r@.len() ==> {
            let i = present_slots(loc@, 1024)[k];
            &&& (#[trigger] r@[k]).index == i
            &&& r@[k].x == i % 32
            &&& r@[k].z == i / 32
            &&& r@[k].offset_sectors == slot_offset(loc@, i)
            &&& r@[k].length_sectors == slot_length(loc@, i)
            &&& r@[k].timestamp == slot_timestamp(ts@, i)
            &&& r@[k].byte_offset == slot_offset(loc@, i) * 4096
        },
{
    let mut out: Vec<ChunkSlot> = Vec::new();
    let mut i: usize = 0;
    while i < 1024
        invariant
            loc@.len() == 4096,
            ts@.len() == 4096,
            i <= 1024,
            out@.len() == present_slots(loc@, i as int).len(),
            forall|k: int| 0 <= k < out@.len() ==> {
                let j = present_slots(loc@, i as int)[k];
                &&& (#[trigger] out@[k]).index == j
                &&& out@[k].x == j % 32
                &&& out@[k].z == j / 32
                &&& out@[k].offset_sectors == slot_offset(loc@, j)
                &&& out@[k].length_sectors == slot_length(loc@, j)
                &&& out@[k].timestamp == slot_timestamp(ts@, j)
                &&& out@[k].byte_offset == slot_offset(loc@, j) * 4096
            },
        decreases 1024 - i,
    {
        let off = i * 4;
        let offset_sectors = read_be24(loc, off);
        let length_sectors = loc[off + 3] as u32;
        let ghost prev = present_slots(loc@, i as int);
        if offset_sectors != 0 && length_sectors != 0 {
            let timestamp = read_be32(ts, off);
            out.push(ChunkSlot {
                index: i as u32,
                x: (i % 32) as u32,
                z: (i / 32) as u32,
                offset_sectors,
                length_sectors,
                timestamp,
                byte_offset: (offset_sectors as u64) * 4096,
            });
            assert(present_slots(loc@, i + 1) == prev.push(i as int));
        }
        i = i + 1;
    }
    out
}

/// The chunk information for a present chunk, given the five bytes at the
/// start of its data (length and compression), or nothing when they could
/// not be read.
pub fn chunk_info(slot: &ChunkSlot, header: Option<[u8; 5]>) -> (c: ChunkInfo)
    ensures
        c.x == slot.x,
        c.z == slot.z,
        c.offset_sectors == slot.offset_sectors,
        c.length_sectors == slot.length_sectors,
        c.timestamp == slot.timestamp,
        match header {
            Some(h) => c.data_length == be32(h@[0], h@[1], h@[2], h@[3]) && c.compression == h@[4],
            None => c.data_length == 0 && c.compression == 0,
        },
{
    let (data_length, compression) = match header {
        Some(h) => {
            let v = h.as_slice();
            (read_be32(v, 0), v[4])
        },
        None => (0u32, 0u8),
    };
    ChunkInfo {
        x: slot.x,
        z: slot.z,
        offset_sectors: slot.offset_sectors,
        length_sectors: slot.length_sectors,
        data_length,
        compression,
        timestamp: slot.timestamp,
    }
}

/// The chunks of a region file, from its two header tables and the data
/// headers read for each present chunk (in the order `chunk_slots` gives).
pub fn read_chunks(loc: &[u8], ts: &[u8], headers: &Vec<Option<[u8; 5]>>) -> (r: Vec<ChunkInfo>)
    requires
        loc@.len() == 4096,
        ts@.len() == 4096,
        headers@.len() == present_slots(loc@, 1024).len(),
    ensures
        r@.len() == present_slots(loc@, 1024).len(),
        forall|k: int| 0 <= k < r@.len() ==> {
            let i = present_slots(loc@, 1024)[k];
            &&& (#[trigger] r@[k]).x == i % 32
            &&& r@[k].z == i / 32
            &&& r@[k].offset_sectors == slot_offset(loc@, i)
            &&& r@[k].length_sectors == slot_length(loc@, i)
            &&& r@[k].timestamp == slot_timestamp(ts@, i)
            &&& match headers@[k] {
                Some(h) => r@[k].data_length == be32(h@[0], h@[1], h@[2], h@[3]) && r@[k].compression == h@[4],
                None => r@[k].data_length == 0 && r@[k].compression == 0,
            }
        },
{
    let slots = chunk_slots(loc, ts);
    let mut out: Vec<ChunkInfo> = Vec::new();
    let mut k: usize = 0;
    while k < slots.len()
        invariant
            slots@.len() == headers@.len(),
            slots@.len() == present_slots(loc@, 1024).len(),
            forall|q: int| 0 <= q < slots@.len() ==> {
                let i = present_slots(loc@, 1024)[q];
                &&& (#[trigger] slots@[q]).x == i % 32
                &&& slots@[q].z == i / 32
                &&& slots@[q].offset_sectors == slot_offset(loc@, i)
                &&& slots@[q].length_sectors == slot_length(loc@, i)
                &&& slots@[q].timestamp == slot_timestamp(ts@, i)
            },
            k <= slots@.len(),
            out@.len() == k,
            forall|q: int| 0 <= q < k ==> {
                let i = present_slots(loc@, 1024)[q];
                &&& (#[trigger] out@[q]).x == i % 32
                &&& out@[q].z == i / 32
                &&& out@[q].offset_sectors == slot_offset(loc@, i)
                &&& out@[q].length_sectors == slot_length(loc@, i)
                &&& out@[q].timestamp == slot_timestamp(ts@, i)
                &&& match headers@[q] {
                    Some(h) => out@[q].data_length == be32(h@[0], h@[1], h@[2], h@[3]) && out@[q].compression == h@[4],
                    None => out@[q].data_length == 0 && out@[q].compression == 0,
                }
            },
        decreases slots@.len() - k,
    {
        let c = chunk_info(&slots[k], headers[k]);
        out.push(c);
        k = k + 1;
    }
    out
}

/// The byte offset of the location entry of chunk (`x`, `z`), which must be below 32.
pub fn clear_chunk_offset(x: u32, z: u32) -> (r: Result<u64, RegionError>)
    ensures
        (x >= 32 || z >= 32) ==> r == Err::<u64, RegionError>(RegionError::ChunkOutOfRange),
        (x < 32 && z < 32) ==> r == Ok::<u64, RegionError>(((z * 32 + x) * 4) as u64),
{
    if x >= 32 || z >= 32 {
        return Err(RegionError::ChunkOutOfRange);
    }
    let idx: u64 = (z * 32 + x) as u64;
    Ok(idx * 4)
}

#[derive(Debug, Clone, Copy, PartialEq, Eq, Structural)]
pub enum RegionError {
    ChunkOutOfRange,
}

impl RegionError {
    pub fn message(&self) -> (m: String)
        ensures
            m@ == "chunk x/z must be 0..32"@,
    {
        String::from_str("chunk x/z must be 0..32")
    }
}

/// Clearing chunk (`x`, `z`) zeroes exactly the location entry that the
/// table reading takes that chunk's position from.
pub proof fn law_clear_hits_own_entry(x: u32, z: u32)
    requires
        x < 32,
        z < 32,
    ensures
        ({
            let i = z * 32 + x;
            &&& 0 <= i < 1024
            &&& i % 32 == x
            &&& i / 32 == z
            &&& ((z * 32 + x) * 4) as int == 4 * i
        }),
{
}

/// The chunk count agrees with the number of chunks the table reading lists,
/// and no index is listed twice.
pub proof fn law_count_matches_slots(loc: Seq<u8>, n: int)
    requires
        0 <= n,
    ensures
        present_slots(loc, n).len() <= n,
        forall|a: int, b: int| 0 <= a < b < present_slots(loc, n).len() ==> present_slots(loc, n)[a] < present_slots(loc, n)[b],
        forall|a: int| 0 <= a < present_slots(loc, n).len() ==> 0 <= #[trigger] present_slots(loc, n)[a] < n && slot_present(loc, present_slots(loc, n)[a]),
    decreases n,
{
    if n > 0 {
        law_count_matches_slots(loc, n - 1);
    }
}

/// The location table with the four bytes of chunk (`x`, `z`)'s entry zeroed,
/// as clearing that chunk leaves it.
pub open spec fn cleared_table(loc: Seq<u8>, x: int, z: int) -> Seq<u8> {
    let o = 4 * (z * 32 + x);
    loc.update(o, 0).update(o + 1, 0).update(o + 2, 0).update(o + 3, 0)
}

/// Which chunks the table lists: exactly those below `n` it marks present.
pub proof fn lemma_present_slots_contains(loc: Seq<u8>, n: int, i: int)
    requires
        0 <= n,
    ensures
        present_slots(loc, n).contains(i) <==> (0 <= i < n && slot_present(loc, i)),
    decreases n,
{
    law_count_matches_slots(loc, n);
    if n > 0 {
        lemma_present_slots_contains(loc, n - 1, i);
        let p = present_slots(loc, n - 1);
        if slot_present(loc, n - 1) {
            let q = p.push(n - 1);
            assert(present_slots(loc, n) == q);
            if q.contains(i) {
                let k = choose|k: int| 0 <= k < q.len() && #[trigger] q[k] == i;
                if k < p.len() { assert(p[k] == i); }
            }
            if p.contains(i) {
                let k = choose|k: int| 0 <= k < p.len() && #[trigger] p[k] == i;
                assert(q[k] == i);
            }
            if i == n - 1 {
                assert(q[p.len() as int] == i);
            }
        }
    }
}

/// Clearing chunk (`x`, `z`) in a region's location table removes exactly
/// that chunk from the chunks the table lists: every other entry, and every
/// other byte of the table, is unchanged.
pub proof fn law_cleared_chunk_is_gone(loc: Seq<u8>, x: u32, z: u32)
    requires
        loc.len() == 4096,
        x < 32,
        z < 32,
    ensures
        ({
            let c = cleared_table(loc, x as int, z as int);
            let idx = z * 32 + x;
            &&& c.len() == 4096
            &&& forall|j: int| 0 <= j < 4096 && !(4 * idx <= j < 4 * idx + 4) ==> #[trigger] c[j] == loc[j]
            &&& !slot_present(c, idx)
            &&& forall|i: int| 0 <= i < 1024 && i != idx ==> #[trigger] slot_offset(c, i) == slot_offset(loc, i)
                && slot_length(c, i) == slot_length(loc, i)
            &&& forall|i: int| #[trigger] present_slots(c, 1024).contains(i)
                <==> (present_slots(loc, 1024).contains(i) && i != idx)
        }),
{
    let c = cleared_table(loc, x as int, z as int);
    let idx = z * 32 + x;
    assert(slot_offset(c, idx as int) == 0);
    assert forall|i: int| #[trigger] present_slots(c, 1024).contains(i)
        <==> (present_slots(loc, 1024).contains(i) && i != idx) by {
        lemma_present_slots_contains(c, 1024, i);
        lemma_present_slots_contains(loc, 1024, i);
        if 0 <= i < 1024 && i != idx {
            assert(slot_offset(c, i) == slot_offset(loc, i));
            assert(slot_length(c, i) == slot_length(loc, i));
        }
    }
}

} // verus!

verus! {

/// Which region directories exist under the server directory.
#[derive(Debug)]
pub struct RegionLayout {
    /// `world/dimensions/minecraft/overworld/region` (1.21+ layout)
    pub new_overworld: bool,
    /// `world/region`
    pub old_overworld: bool,
    /// `world/dimensions/minecraft/the_nether/region`
    pub new_nether: bool,
    /// `world_nether/DIM-1/region`
    pub old_nether: bool,
    /// `world/dimensions/minecraft/the_end/region`
    pub new_end: bool,
    /// `world_the_end/DIM1/region`
    pub old_end: bool,
}

/// The six candidate directories, relative to the server directory, in the
/// order of `RegionLayout`'s fields.
pub open spec fn candidate_rel(k: int) -> Seq<char> {
    if k == 0 { "world/dimensions/minecraft/overworld/region"@ }
    else if k == 1 { "world/region"@ }
    else if k == 2 { "world/dimensions/minecraft/the_nether/region"@ }
    else if k == 3 { "world_nether/DIM-1/region"@ }
    else if k == 4 { "world/dimensions/minecraft/the_end/region"@ }
    else { "world_the_end/DIM1/region"@ }
}

/// The candidate region directories under `server_dir`, to be checked for existence.
pub fn region_dir_candidates(server_dir: &str) -> (v: Vec<String>)
    ensures
        v@.len() == 6,
        forall|k: int| 0 <= k < 6 ==> (#[trigger] v@[k])@ == join_spec(server_dir@, candidate_rel(k)),
{
    let mut v: Vec<String> = Vec::new();
    v.push(join(server_dir, "world/dimensions/minecraft/overworld/region"));
    v.push(join(server_dir, "world/region"));
    v.push(join(server_dir, "world/dimensions/minecraft/the_nether/region"));
    v.push(join(server_dir, "world_nether/DIM-1/region"));
    v.push(join(server_dir, "world/dimensions/minecraft/the_end/region"));
    v.push(join(server_dir, "world_the_end/DIM1/region"));
    v
}

/// One dimension's entry: the new layout's directory when it exists, else the
/// old one's, else none.
pub open spec fn dim_entry(name: Seq<char>, server_dir: Seq<char>, new_exists: bool, old_exists: bool, new_k: int) -> Seq<(Seq<char>, Seq<char>)> {
    if new_exists {
        seq![(name, join_spec(server_dir, candidate_rel(new_k)))]
    } else if old_exists {
        seq![(name, join_spec(server_dir, candidate_rel(new_k + 1)))]
    } else {
        Seq::empty()
    }
}

pub open spec fn region_dirs_spec(server_dir: Seq<char>, l: RegionLayout) -> Seq<(Seq<char>, Seq<char>)> {
    dim_entry("overworld"@, server_dir, l.new_overworld, l.old_overworld, 0)
        + dim_entry("the_nether"@, server_dir, l.new_nether, l.old_nether, 2)
        + dim_entry("the_end"@, server_dir, l.new_end, l.old_end, 4)
}

pub open spec fn pair_views(v: Seq<(String, String)>) -> Seq<(Seq<char>, Seq<char>)> {
    v.map_values(|p: (String, String)| (p.0@, p.1@))
}

fn push_dim(out: &mut Vec<(String, String)>, name: &str, server_dir: &str, new_exists: bool, old_exists: bool, new_rel: &str, old_rel: &str)
    ensures
        pair_views(final(out)@) == pair_views(old(out)@) + (if new_exists {
            seq![(name@, join_spec(server_dir@, new_rel@))]
        } else if old_exists {
            seq![(name@, join_spec(server_dir@, old_rel@))]
        } else {
            Seq::empty()
        }),
{
    let ghost before = out@;
    if new_exists {
        out.push((String::from_str(name), join(server_dir, new_rel)));
        assert(pair_views(out@) =~= pair_views(before) + seq![(name@, join_spec(server_dir@, new_rel@))]);
    } else if old_exists {
        out.push((String::from_str(name), join(server_dir, old_rel)));
        assert(pair_views(out@) =~= pair_views(before) + seq![(name@, join_spec(server_dir@, old_rel@))]);
    } else {
        assert(pair_views(out@) =~= pair_views(before) + Seq::empty());
    }
}

/// The region directory of each dimension that has one, as (dimension, path):
/// the 1.21+ layout first, the legacy layout otherwise.
pub fn dimension_region_dirs(server_dir: &str, layout: &RegionLayout) -> (v: Vec<(String, String)>)
    ensures
        pair_views(v@) == region_dirs_spec(server_dir@, *layout),
{
    let mut out: Vec<(String, String)> = Vec::new();
    assert(pair_views(out@) =~= Seq::empty());
    push_dim(&mut out, "overworld", server_dir, layout.new_overworld, layout.old_overworld,
        "world/dimensions/minecraft/overworld/region", "world/region");
    push_dim(&mut out, "the_nether", server_dir, layout.new_nether, layout.old_nether,
        "world/dimensions/minecraft/the_nether/region", "world_nether/DIM-1/region");
    push_dim(&mut out, "the_end", server_dir, layout.new_end, layout.old_end,
        "world/dimensions/minecraft/the_end/region", "world_the_end/DIM1/region");
    assert(pair_views(out@) =~= region_dirs_spec(server_dir@, *layout));
    out
}

/// Whether the listing holds `dimension` paired with `dir`.
pub open spec fn lists_dir(dirs: Seq<(Seq<char>, Seq<char>)>, dimension: Seq<char>, dir: Seq<char>) -> bool {
    exists|k: int| 0 <= k < dirs.len() && dirs[k] == (dimension, dir)
}

pub open spec fn lists_dimension(dirs: Seq<(Seq<char>, Seq<char>)>, dimension: Seq<char>) -> bool {
    exists|k: int| 0 <= k < dirs.len() && dirs[k].0 == dimension
}

/// Each dimension is listed with its 1.21+ directory when that exists, else
/// with its legacy directory when that exists, and not at all otherwise.
pub proof fn law_region_dirs_per_dimension(server_dir: Seq<char>, l: RegionLayout)
    ensures
        ({
            let dirs = region_dirs_spec(server_dir, l);
            &&& l.new_overworld ==> lists_dir(dirs, "overworld"@, join_spec(server_dir, "world/dimensions/minecraft/overworld/region"@))
            &&& !l.new_overworld && l.old_overworld ==> lists_dir(dirs, "overworld"@, join_spec(server_dir, "world/region"@))
            &&& !l.new_overworld && !l.old_overworld ==> !lists_dimension(dirs, "overworld"@)
            &&& l.new_nether ==> lists_dir(dirs, "the_nether"@, join_spec(server_dir, "world/dimensions/minecraft/the_nether/region"@))
            &&& !l.new_nether && l.old_nether ==> lists_dir(dirs, "the_nether"@, join_spec(server_dir, "world_nether/DIM-1/region"@))
            &&& !l.new_nether && !l.old_nether ==> !lists_dimension(dirs, "the_nether"@)
            &&& l.new_end ==> lists_dir(dirs, "the_end"@, join_spec(server_dir, "world/dimensions/minecraft/the_end/region"@))
            &&& !l.new_end && l.old_end ==> lists_dir(dirs, "the_end"@, join_spec(server_dir, "world_the_end/DIM1/region"@))
            &&& !l.new_end && !l.old_end ==> !lists_dimension(dirs, "the_end"@)
        }),
{
    reveal_strlit("overworld");
    reveal_strlit("the_nether");
    reveal_strlit("the_end");
    assert("overworld"@.len() == 9 && "the_nether"@.len() == 10 && "the_end"@.len() == 7);
    assert("overworld"@ != "the_nether"@ && "overworld"@ != "the_end"@ && "the_nether"@ != "the_end"@);
    let a = dim_entry("overworld"@, server_dir, l.new_overworld, l.old_overworld, 0);
    let b = dim_entry("the_nether"@, server_dir, l.new_nether, l.old_nether, 2);
    let c = dim_entry("the_end"@, server_dir, l.new_end, l.old_end, 4);
    let dirs = a + b + c;
    assert(dirs == region_dirs_spec(server_dir, l));
    if a.len() > 0 { assert(dirs[0] == a[0]); }
    if b.len() > 0 { assert(dirs[a.len() as int] == b[0]); }
    if c.len() > 0 { assert(dirs[(a.len() + b.len()) as int] == c[0]); }
    assert forall|k: int| 0 <= k < dirs.len() implies
        (#[trigger] dirs[k]).0 == "overworld"@ || dirs[k].0 == "the_nether"@ || dirs[k].0 == "the_end"@ by {
        if k < a.len() { assert(dirs[k] == a[k]); }
        else if k < a.len() + b.len() { assert(dirs[k] == b[k - a.len()]); }
        else { assert(dirs[k] == c[k - a.len() - b.len()]); }
    }
    assert forall|k: int| 0 <= k < dirs.len() && (#[trigger] dirs[k]).0 == "overworld"@ implies a.len() > 0 && dirs[k] == a[0] by {
        if k < a.len() { assert(dirs[k] == a[k]); }
        else if k < a.len() + b.len() { assert(dirs[k] == b[k - a.len()]); assert(b[k - a.len()].0 == "the_nether"@); }
        else { assert(dirs[k] == c[k - a.len() - b.len()]); assert(c[k - a.len() - b.len()].0 == "the_end"@); }
    }
    assert forall|k: int| 0 <= k < dirs.len() && (#[trigger] dirs[k]).0 == "the_nether"@ implies b.len() > 0 by {
        if k < a.len() { assert(dirs[k] == a[k]); assert(a[k].0 == "overworld"@); }
        else if k < a.len() + b.len() { assert(dirs[k] == b[k - a.len()]); }
        else { assert(dirs[k] == c[k - a.len() - b.len()]); assert(c[k - a.len() - b.len()].0 == "the_end"@); }
    }
    assert forall|k: int| 0 <= k < dirs.len() && (#[trigger] dirs[k]).0 == "the_end"@ implies c.len() > 0 by {
        if k < a.len() { assert(dirs[k] == a[k]); assert(a[k].0 == "overworld"@); }
        else if k < a.len() + b.len() { assert(dirs[k] == b[k - a.len()]); assert(b[k - a.len()].0 == "the_nether"@); }
        else { assert(dirs[k] == c[k - a.len() - b.len()]); }
    }
}

/// The directory listed for `dimension`, if any: the first entry with that name.
pub open spec fn dir_for(dirs: Seq<(Seq<char>, Seq<char>)>, dimension: Seq<char>) -> Option<Seq<char>>
    decreases dirs.len(),
{
    if dirs.len() == 0 {
        None
    } else if dirs[0].0 == dimension {
        Some(dirs[0].1)
    } else {
        dir_for(dirs.drop_first(), dimension)
    }
}

/// The region file a request names, confined to its dimension's directory.
pub open spec fn region_file_path_spec(dirs: Seq<(Seq<char>, Seq<char>)>, dimension: Seq<char>, file: Seq<char>) -> Result<Seq<char>, PathError> {
    match dir_for(dirs, dimension) {
        None => Err(PathError::UnknownDimension),
        Some(d) => match file_name_spec(file) {
            None => Err(PathError::BadName),
            Some(f) => if ends_with_seq(f, ".mca"@) { Ok(join_spec(d, f)) } else { Err(PathError::NotMca) },
        },
    }
}

fn find_dir(dirs: &Vec<(String, String)>, dimension: &str) -> (r: Option<usize>)
    ensures
        match dir_for(pair_views(dirs@), dimension@) {
            Some(d) => r matches Some(i) && i < dirs@.len() && dirs@[i as int].1@ == d,
            None => r is None,
        },
{
    let ghost all = pair_views(dirs@);
    assert(all.subrange(0, all.len() as int) =~= all);
    let mut i: usize = 0;
    while i < dirs.len()
        invariant
            all == pair_views(dirs@),
            i <= dirs@.len(),
            dir_for(all, dimension@) == dir_for(all.subrange(i as int, all.len() as int), dimension@),
        decreases dirs@.len() - i,
    {
        let ghost rest = all.subrange(i as int, all.len() as int);
        assert(rest[0] == (dirs@[i as int].0@, dirs@[i as int].1@));
        if same_text(dirs[i].0.as_str(), dimension) {
            return Some(i);
        }
        assert(rest.drop_first() =~= all.subrange(i + 1, all.len() as int));
        i = i + 1;
    }
    None
}

/// The region directory listed for `dimension`; an unknown dimension is refused.
pub fn region_dir_of(dirs: &Vec<(String, String)>, dimension: &str) -> (r: Result<String, PathError>)
    ensures
        match dir_for(pair_views(dirs@), dimension@) {
            Some(d) => r matches Ok(x) && x@ == d,
            None => r == Err::<String, PathError>(PathError::UnknownDimension),
        },
{
    proof { assert(pair_views(dirs@).subrange(0, pair_views(dirs@).len() as int) =~= pair_views(dirs@)); }
    match find_dir(dirs, dimension) {
        Some(i) => Ok(dirs[i].1.clone()),
        None => Err(PathError::UnknownDimension),
    }
}

/// The path of a region file of a dimension.
pub fn region_file_path(dirs: &Vec<(String, String)>, dimension: &str, file: &str) -> (r: Result<String, PathError>)
    ensures
        match region_file_path_spec(pair_views(dirs@), dimension@, file@) {
            Ok(p) => r matches Ok(x) && x@ == p,
            Err(e) => r == Err::<String, PathError>(e),
        },
{
    proof { assert(pair_views(dirs@).subrange(0, pair_views(dirs@).len() as int) =~= pair_views(dirs@)); }
    let i = match find_dir(dirs, dimension) {
        Some(i) => i,
        None => return Err(PathError::UnknownDimension),
    };
    let safe = match file_name(file) {
        Some(s) => s,
        None => return Err(PathError::BadName),
    };
    let cs = chars_of(safe.as_str());
    let mca = chars_of(".mca");
    if !ends_with(cs.as_slice(), mca.as_slice()) {
        return Err(PathError::NotMca);
    }
    Ok(join(dirs[i].1.as_str(), safe.as_str()))
}

/// A directory entry is listed as a region file when it is a file named `*.mca`.
pub fn is_region_file(name: &str, is_file: bool) -> (b: bool)
    ensures
        b == (ends_with_seq(name@, ".mca"@) && is_file),
{
    let cs = chars_of(name);
    let mca = chars_of(".mca");
    ends_with(cs.as_slice(), mca.as_slice()) && is_file
}

/// The label a region file is listed under: `dimension/name`.
pub fn region_file_label(dimension: &str, name: &str) -> (p: String)
    ensures
        p@ == dimension@ + "/"@ + name@,
{
    crate::text::concat3(dimension, "/", name)
}

/// Region files ordered by their label.
pub fn sort_region_files(v: Vec<RegionFileInfo>) -> (r: Vec<RegionFileInfo>)
    ensures
        exists|perm: Seq<usize>| crate::order::is_permutation(perm, v@.len())
            && crate::order::stable_ascending(v@.map_values(|f: RegionFileInfo| f.path@), perm)
            && r@.len() == v@.len()
            && forall|k: int| 0 <= k < r@.len() ==> #[trigger] r@[k] == v@[perm[k] as int],
{
    let mut keys: Vec<Vec<char>> = Vec::new();
    let mut i: usize = 0;
    while i < v.len()
        invariant
            i <= v@.len(),
            keys@.len() == i,
            forall|k: int| 0 <= k < i ==> (#[trigger] keys@[k])@ == v@[k].path@,
        decreases v@.len() - i,
    {
        keys.push(chars_of(v[i].path.as_str()));
        i = i + 1;
    }
    assert forall|k: int| 0 <= k < keys@.len() implies #[trigger] keys.deep_view()[k] == v@.map_values(|f: RegionFileInfo| f.path@)[k] by {
        assert(keys.deep_view()[k] == keys@[k].deep_view());
        assert(keys@[k].deep_view() =~= keys@[k]@);
    }
    assert(keys.deep_view() =~= v@.map_values(|f: RegionFileInfo| f.path@));
    let perm = crate::order::text_sort_order(&keys);
    crate::order::permute(v, &perm)
}

} // verus!
