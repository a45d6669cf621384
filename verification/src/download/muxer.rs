//! MP4 remuxer for combining a video-only MP4 and an audio-only MP4 into one
//! file, by byte-level box manipulation (no re-encoding).
//!
//! The layout produced is `ftyp | moov (video moov + audio trak) | mdat
//! (video payload + audio payload)`, with every chunk offset (`stco`/`co64`)
//! shifted to the new position of its payload.

use vstd::prelude::*;
use crate::error::AppError;

verus! {

// ---------------------------------------------------------------------------
// Big-endian fields
// ---------------------------------------------------------------------------

/// The big-endian 32-bit value stored at `p`.
pub open spec fn be32(s: Seq<u8>, p: int) -> int {
    s[p] as int * 16777216 + s[p + 1] as int * 65536 + s[p + 2] as int * 256 + s[p + 3] as int
}

/// The big-endian 64-bit value stored at `p`.
pub open spec fn be64(s: Seq<u8>, p: int) -> int {
    be32(s, p) * 4294967296 + be32(s, p + 4)
}

/// The four big-endian bytes of `v` (taken modulo 2^32).
pub open spec fn be32_bytes(v: int) -> Seq<u8> {
    let w = v % 4294967296;
    seq![
        ((w / 16777216) % 256) as u8,
        ((w / 65536) % 256) as u8,
        ((w / 256) % 256) as u8,
        (w % 256) as u8,
    ]
}

proof fn lemma_mod_mod_2_32(v: int)
    requires
        v >= 0,
    ensures
        (v % 4294967296) % 4294967296 == v % 4294967296,
{
}

/// The eight big-endian bytes of `v` (taken modulo 2^64).
pub open spec fn be64_bytes(v: int) -> Seq<u8> {
    be32_bytes(v / 4294967296) + be32_bytes(v % 4294967296)
}

/// `s` with `bytes` written over it starting at `p`.
pub open spec fn overwrite(s: Seq<u8>, p: int, bytes: Seq<u8>) -> Seq<u8> {
    s.subrange(0, p) + bytes + s.subrange(p + bytes.len(), s.len() as int)
}

/// The four bytes at `p` (a box type when `p` is a box start plus 4).
pub open spec fn four_cc(s: Seq<u8>, p: int) -> Seq<u8> {
    s.subrange(p, p + 4)
}

fn read_be32(s: &[u8], p: usize) -> (r: u32)
    requires
        p + 4 <= s@.len(),
    ensures
        r == be32(s@, p as int),
{
    (s[p] as u32) * 16777216 + (s[p + 1] as u32) * 65536 + (s[p + 2] as u32) * 256 + (s[p + 3] as u32)
}

fn read_be64(s: &[u8], p: usize) -> (r: u64)
    requires
        p + 8 <= s@.len(),
    ensures
        r == be64(s@, p as int),
{
    let _n = s.len();
    let hi = read_be32(s, p) as u64;
    let lo = read_be32(s, p + 4) as u64;
    assert(hi * 4294967296 + lo <= u64::MAX) by (nonlinear_arith)
        requires
            hi <= 4294967295,
            lo <= 4294967295,
    ;
    hi * 4294967296 + lo
}

fn push_be32(out: &mut Vec<u8>, v: u32)
    ensures
        final(out)@ == old(out)@ + be32_bytes(v as int),
{
    out.push((v / 16777216) as u8);
    out.push(((v / 65536) % 256) as u8);
    out.push(((v / 256) % 256) as u8);
    out.push((v % 256) as u8);
    assert(final(out)@ =~= old(out)@ + be32_bytes(v as int));
}

fn push_be64(out: &mut Vec<u8>, v: u64)
    ensures
        final(out)@ == old(out)@ + be64_bytes(v as int),
{
    push_be32(out, (v / 4294967296) as u32);
    push_be32(out, (v % 4294967296) as u32);
    assert(final(out)@ =~= old(out)@ + be64_bytes(v as int));
}

fn write_be32_at(buf: &mut Vec<u8>, p: usize, v: u32)
    requires
        p + 4 <= old(buf)@.len(),
    ensures
        final(buf)@ == overwrite(old(buf)@, p as int, be32_bytes(v as int)),
{
    let _n = buf.len();
    buf[p] = (v / 16777216) as u8;
    buf[p + 1] = ((v / 65536) % 256) as u8;
    buf[p + 2] = ((v / 256) % 256) as u8;
    buf[p + 3] = (v % 256) as u8;
    assert(final(buf)@ =~= overwrite(old(buf)@, p as int, be32_bytes(v as int)));
}

fn write_be64_at(buf: &mut Vec<u8>, p: usize, v: u64)
    requires
        p + 8 <= old(buf)@.len(),
    ensures
        final(buf)@ == overwrite(old(buf)@, p as int, be64_bytes(v as int)),
{
    let _n = buf.len();
    write_be32_at(buf, p, (v / 4294967296) as u32);
    write_be32_at(buf, p + 4, (v % 4294967296) as u32);
    assert(final(buf)@ =~= overwrite(old(buf)@, p as int, be64_bytes(v as int)));
}

fn same_four_cc(s: &[u8], p: usize, t: &[u8; 4]) -> (r: bool)
    requires
        p + 4 <= s@.len(),
    ensures
        r == (four_cc(s@, p as int) == t@),
{
    let r = s[p] == t[0] && s[p + 1] == t[1] && s[p + 2] == t[2] && s[p + 3] == t[3];
    if r {
        assert(four_cc(s@, p as int) =~= t@);
    } else {
        assert(four_cc(s@, p as int) != t@) by {
            if four_cc(s@, p as int) == t@ {
                assert(four_cc(s@, p as int)[0] == t@[0]);
                assert(four_cc(s@, p as int)[1] == t@[1]);
                assert(four_cc(s@, p as int)[2] == t@[2]);
                assert(four_cc(s@, p as int)[3] == t@[3]);
            }
        }
    }
    r
}

// ---------------------------------------------------------------------------
// Top-level box walk
// ---------------------------------------------------------------------------

/// Represents a parsed MP4 box location.
#[derive(Debug, Clone)]
pub struct Mp4Box {
    pub box_type: [u8; 4],
    /// Start of the box (including header).
    pub offset: usize,
    /// Total box size (header + data).
    pub size: usize,
    /// Start of box data (after header).
    pub data_offset: usize,
    /// Size of box data.
    pub data_size: usize,
}

/// A box as plain values: (type, offset, size, data offset, data size).
pub type BoxSpec = (Seq<u8>, int, int, int, int);

/// The plain-value description of a parsed box.
pub open spec fn box_spec(b: Mp4Box) -> BoxSpec {
    (b.box_type@, b.offset as int, b.size as int, b.data_offset as int, b.data_size as int)
}

/// The boxes found by walking `s` from `pos` to the end, or `None` when the
/// walk meets a box whose declared size is smaller than its own header, or
/// whose extended size overflows the address space (the cases on which the
/// walk cannot go on).
///
/// At each step: a 32-bit size and a type; size 1 means a 64-bit extended
/// size follows (the walk stops if it does not fit), size 0 means "to the end
/// of the data". The walk stops at a zero size or at a box running past the
/// end of the data.
pub open spec fn spec_walk_boxes(s: Seq<u8>, pos: int) -> Option<Seq<BoxSpec>>
    decreases s.len() - pos,
{
    if pos < 0 || pos + 8 > s.len() {
        Some(Seq::empty())
    } else {
        let size = be32(s, pos);
        if size == 1 && pos + 16 > s.len() {
            Some(Seq::empty())
        } else {
            let actual = if size == 1 { be64(s, pos + 8) } else if size == 0 { s.len() - pos } else { size };
            let header = if size == 1 { 16int } else { 8int };
            if actual <= 0 {
                Some(Seq::empty())
            } else if pos + actual > usize::MAX {
                None
            } else if pos + actual > s.len() {
                Some(Seq::empty())
            } else if actual < header {
                None
            } else {
                match spec_walk_boxes(s, pos + actual) {
                    None => None,
                    Some(rest) => Some(
                        seq![(four_cc(s, pos + 4), pos, actual, pos + header, actual - header)] + rest,
                    ),
                }
            }
        }
    }
}

/// Parses the top-level boxes, or returns `None` where the walk cannot go on
/// (see `spec_walk_boxes`).
pub fn try_parse_mp4_boxes(data: &[u8]) -> (r: Option<Vec<Mp4Box>>)
    ensures
        match r {
            Some(v) => spec_walk_boxes(data@, 0) == Some(v@.map_values(|b: Mp4Box| box_spec(b))),
            None => spec_walk_boxes(data@, 0) is None,
        },
{
    let mut boxes: Vec<Mp4Box> = Vec::new();
    let mut pos: usize = 0;
    let len = data.len();
    loop
        invariant
            len == data@.len(),
            pos <= len,
            spec_walk_boxes(data@, 0) == match spec_walk_boxes(data@, pos as int) {
                None => None,
                Some(rest) => Some(boxes@.map_values(|b: Mp4Box| box_spec(b)) + rest),
            },
        decreases len - pos,
    {
        if len - pos < 8 {
            assert(boxes@.map_values(|b: Mp4Box| box_spec(b)) + Seq::<BoxSpec>::empty()
                =~= boxes@.map_values(|b: Mp4Box| box_spec(b)));
            return Some(boxes);
        }
        let size = read_be32(data, pos);
        let actual: u64;
        let header: usize;
        if size == 1 {
            if len - pos < 16 {
                assert(boxes@.map_values(|b: Mp4Box| box_spec(b)) + Seq::<BoxSpec>::empty()
                    =~= boxes@.map_values(|b: Mp4Box| box_spec(b)));
                return Some(boxes);
            }
            actual = read_be64(data, pos + 8);
            header = 16;
        } else if size == 0 {
            actual = (len - pos) as u64;
            header = 8;
        } else {
            actual = size as u64;
            header = 8;
        }
        if actual == 0 {
            assert(boxes@.map_values(|b: Mp4Box| box_spec(b)) + Seq::<BoxSpec>::empty()
                =~= boxes@.map_values(|b: Mp4Box| box_spec(b)));
            return Some(boxes);
        }
        if actual > (usize::MAX - pos) as u64 {
            return None;
        }
        if actual > (len - pos) as u64 {
            assert(boxes@.map_values(|b: Mp4Box| box_spec(b)) + Seq::<BoxSpec>::empty()
                =~= boxes@.map_values(|b: Mp4Box| box_spec(b)));
            return Some(boxes);
        }
        let actual = actual as usize;
        if actual < header {
            return None;
        }
        let b = Mp4Box {
            box_type: [data[pos + 4], data[pos + 5], data[pos + 6], data[pos + 7]],
            offset: pos,
            size: actual,
            data_offset: pos + header,
            data_size: actual - header,
        };
        proof {
            assert(b.box_type@ =~= four_cc(data@, pos + 4));
            let ghost old_boxes = boxes@;
        }
        let ghost before = boxes@;
        boxes.push(b);
        proof {
            assert(boxes@.map_values(|b: Mp4Box| box_spec(b)) =~= before.map_values(
                |b: Mp4Box| box_spec(b),
            ).push(box_spec(b)));
            match spec_walk_boxes(data@, (pos + actual) as int) {
                None => {},
                Some(rest) => {
                    assert(before.map_values(|b: Mp4Box| box_spec(b)) + (seq![box_spec(b)] + rest)
                        =~= boxes@.map_values(|b: Mp4Box| box_spec(b)) + rest);
                },
            }
        }
        pos = pos + actual;
    }
}

/// Whether the top-level walk of `data` can go to its end (see
/// `spec_walk_boxes`).
pub open spec fn boxes_walkable(data: Seq<u8>) -> bool {
    spec_walk_boxes(data, 0) is Some
}

/// Parse top-level MP4 boxes from raw data.
pub fn parse_mp4_boxes(data: &[u8]) -> (r: Result<Vec<Mp4Box>, AppError>)
    requires
        boxes_walkable(data@),
    ensures
        r matches Ok(v) && spec_walk_boxes(data@, 0) == Some(v@.map_values(|b: Mp4Box| box_spec(b))),
{
    match try_parse_mp4_boxes(data) {
        Some(v) => Ok(v),
        None => {
            assert(false);
            Ok(Vec::new())
        },
    }
}

/// The index of the first box of type `t` at or after `k`.
pub open spec fn spec_first_box_from(bs: Seq<BoxSpec>, t: Seq<u8>, k: int) -> Option<int>
    decreases bs.len() - k,
{
    if k < 0 || k >= bs.len() {
        None
    } else if bs[k].0 == t {
        Some(k)
    } else {
        spec_first_box_from(bs, t, k + 1)
    }
}

/// The first box of a type, when there is one, is an index into the list.
pub proof fn lemma_first_box_in_range(bs: Seq<BoxSpec>, t: Seq<u8>, k: int)
    ensures
        spec_first_box_from(bs, t, k) matches Some(i) ==> k <= i < bs.len() && bs[i].0 == t,
    decreases bs.len() - k,
{
    if 0 <= k < bs.len() && bs[k].0 != t {
        lemma_first_box_in_range(bs, t, k + 1);
    }
}

/// The index of the first box of type `t`.
pub open spec fn spec_first_box(bs: Seq<BoxSpec>, t: Seq<u8>) -> Option<int> {
    spec_first_box_from(bs, t, 0)
}

fn find_box_index(boxes: &[Mp4Box], box_type: &[u8; 4]) -> (r: Option<usize>)
    ensures
        match r {
            Some(i) => spec_first_box(boxes@.map_values(|b: Mp4Box| box_spec(b)), box_type@)
                == Some(i as int),
            None => spec_first_box(boxes@.map_values(|b: Mp4Box| box_spec(b)), box_type@) is None,
        },
{
    let ghost bs = boxes@.map_values(|b: Mp4Box| box_spec(b));
    let mut k: usize = 0;
    while k < boxes.len()
        invariant
            k <= boxes@.len(),
            bs == boxes@.map_values(|b: Mp4Box| box_spec(b)),
            spec_first_box(bs, box_type@) == spec_first_box_from(bs, box_type@, k as int),
        decreases boxes.len() - k,
    {
        let b = &boxes[k];
        let same = b.box_type[0] == box_type[0] && b.box_type[1] == box_type[1]
            && b.box_type[2] == box_type[2] && b.box_type[3] == box_type[3];
        assert(bs[k as int].0 == b.box_type@);
        if same {
            assert(b.box_type@ =~= box_type@);
            return Some(k);
        } else {
            assert(b.box_type@ != box_type@) by {
                if b.box_type@ == box_type@ {
                    assert(b.box_type@[0] == box_type@[0]);
                    assert(b.box_type@[1] == box_type@[1]);
                    assert(b.box_type@[2] == box_type@[2]);
                    assert(b.box_type@[3] == box_type@[3]);
                }
            }
        }
        k += 1;
    }
    None
}

/// Find a box by type in a list of parsed boxes: the first one of that type.
pub fn find_box<'a>(boxes: &'a [Mp4Box], box_type: &[u8; 4]) -> (r: Option<&'a Mp4Box>)
    ensures
        match spec_first_box(boxes@.map_values(|b: Mp4Box| box_spec(b)), box_type@) {
            Some(i) => r == Some(&boxes@[i]),
            None => r is None,
        },
{
    proof {
        lemma_first_box_in_range(boxes@.map_values(|b: Mp4Box| box_spec(b)), box_type@, 0);
    }
    match find_box_index(boxes, box_type) {
        Some(i) => Some(&boxes[i]),
        None => None,
    }
}

// ---------------------------------------------------------------------------
// Child box lookup
// ---------------------------------------------------------------------------

/// Looks for a child box of type `t` in the parent box `s`, walking its
/// children from `pos`. The outer `None` marks a child whose extended size
/// overflows the address space (the walk cannot go on); `Some(None)` means
/// no such child; `Some(Some(b))` is the first such child, header included.
///
/// A size of 1 reads a 64-bit extended size when it fits in the parent; a
/// size of 0 runs to the end of the parent. The walk stops at a zero size or
/// at a child running past the end of the parent.
pub open spec fn spec_child_from(s: Seq<u8>, pos: int, t: Seq<u8>) -> Option<Option<Seq<u8>>>
    decreases s.len() - pos,
{
    if pos < 0 || pos + 8 > s.len() {
        Some(None)
    } else {
        let size = be32(s, pos);
        let actual = if size == 1 && pos + 16 <= s.len() {
            be64(s, pos + 8)
        } else if size == 0 {
            s.len() - pos
        } else {
            size
        };
        if actual <= 0 {
            Some(None)
        } else if pos + actual > usize::MAX {
            None
        } else if pos + actual > s.len() {
            Some(None)
        } else if four_cc(s, pos + 4) == t {
            Some(Some(s.subrange(pos, pos + actual)))
        } else {
            spec_child_from(s, pos + actual, t)
        }
    }
}

/// The child lookup of `extract_child_box`, starting after the parent's
/// 8-byte header.
pub open spec fn spec_child_box(parent: Seq<u8>, t: Seq<u8>) -> Option<Option<Seq<u8>>> {
    spec_child_from(parent, 8, t)
}

/// Looks for a child box; `None` where the walk cannot go on (see
/// `spec_child_from`).
pub fn try_extract_child_box(parent_data: &[u8], child_type: &[u8; 4]) -> (r: Option<Option<Vec<u8>>>)
    ensures
        match r {
            None => spec_child_box(parent_data@, child_type@) is None,
            Some(None) => spec_child_box(parent_data@, child_type@) == Some(None::<Seq<u8>>),
            Some(Some(v)) => spec_child_box(parent_data@, child_type@) == Some(Some(v@)),
        },
{
    let len = parent_data.len();
    let mut pos: usize = 8;
    loop
        invariant
            len == parent_data@.len(),
            8 <= pos,
            spec_child_box(parent_data@, child_type@) == spec_child_from(parent_data@, pos as int, child_type@),
        decreases len - pos,
    {
        if pos > len || len - pos < 8 {
            return Some(None);
        }
        let size = read_be32(parent_data, pos);
        let actual: u64 = if size == 1 && len - pos >= 16 {
            read_be64(parent_data, pos + 8)
        } else if size == 0 {
            (len - pos) as u64
        } else {
            size as u64
        };
        if actual == 0 {
            return Some(None);
        }
        if actual > (usize::MAX - pos) as u64 {
            return None;
        }
        if actual > (len - pos) as u64 {
            return Some(None);
        }
        let actual = actual as usize;
        if same_four_cc(parent_data, pos + 4, child_type) {
            let mut out: Vec<u8> = Vec::new();
            let mut k = pos;
            while k < pos + actual
                invariant
                    pos <= k <= pos + actual <= len,
                    len == parent_data@.len(),
                    out@ =~= parent_data@.subrange(pos as int, k as int),
                decreases pos + actual - k,
            {
                out.push(parent_data[k]);
                k += 1;
            }
            return Some(Some(out));
        }
        pos = pos + actual;
    }
}

/// Whether the child walk of `parent` for type `t` can go on to its end.
pub open spec fn child_walkable(parent: Seq<u8>, t: Seq<u8>) -> bool {
    spec_child_box(parent, t) is Some
}

/// Extract a child box from within a parent box's data: the first child of
/// the given type, header included.
pub fn extract_child_box(parent_data: &[u8], child_type: &[u8; 4]) -> (r: Option<Vec<u8>>)
    requires
        child_walkable(parent_data@, child_type@),
    ensures
        match spec_child_box(parent_data@, child_type@) {
            Some(Some(b)) => r matches Some(v) && v@ == b,
            _ => r is None,
        },
{
    match try_extract_child_box(parent_data, child_type) {
        Some(found) => found,
        None => {
            assert(false);
            None
        },
    }
}

// ---------------------------------------------------------------------------
// moov surgery
// ---------------------------------------------------------------------------

/// The moov box with `trak` appended inside it and its size field rewritten
/// (modulo 2^32).
pub open spec fn spec_insert_trak(moov: Seq<u8>, trak: Seq<u8>) -> Seq<u8> {
    be32_bytes((moov.len() + trak.len()) as int) + moov.subrange(4, moov.len() as int) + trak
}

fn push_range(out: &mut Vec<u8>, src: &[u8], lo: usize, hi: usize)
    requires
        lo <= hi <= src@.len(),
    ensures
        final(out)@ == old(out)@ + src@.subrange(lo as int, hi as int),
{
    let mut k = lo;
    while k < hi
        invariant
            lo <= k <= hi <= src@.len(),
            out@ =~= old(out)@ + src@.subrange(lo as int, k as int),
        decreases hi - k,
    {
        out.push(src[k]);
        k += 1;
    }
}

/// Insert an audio trak box into a video moov box.
/// Returns the new moov box data with its size updated.
pub fn insert_trak_into_moov(moov_data: &[u8], audio_trak: &[u8]) -> (r: Vec<u8>)
    requires
        moov_data@.len() >= 8,
        moov_data@.len() + audio_trak@.len() <= usize::MAX,
    ensures
        r@ == spec_insert_trak(moov_data@, audio_trak@),
{
    let original_size = moov_data.len();
    let new_size = original_size + audio_trak.len();
    let mut result: Vec<u8> = Vec::with_capacity(new_size);
    push_be32(&mut result, (new_size as u64 % 4294967296) as u32);
    push_range(&mut result, moov_data, 4, 8);
    push_range(&mut result, moov_data, 8, original_size);
    push_range(&mut result, audio_trak, 0, audio_trak.len());
    proof {
        lemma_mod_mod_2_32(new_size as int);
        assert(be32_bytes((new_size as u64 % 4294967296) as int) =~= be32_bytes(new_size as int));
        assert(moov_data@.subrange(4, 8) + moov_data@.subrange(8, original_size as int)
            =~= moov_data@.subrange(4, original_size as int));
        assert(audio_trak@.subrange(0, audio_trak@.len() as int) =~= audio_trak@);
        assert(result@ =~= spec_insert_trak(moov_data@, audio_trak@));
    }
    result
}

/// From `pos` on, the children of `s` each carry a plain 32-bit size of at
/// least eight bytes, fill the rest of `s` exactly, and none has type `t`.
pub open spec fn children_tile_without(s: Seq<u8>, pos: int, t: Seq<u8>) -> bool
    decreases s.len() - pos,
{
    if pos < 0 {
        false
    } else if pos >= s.len() {
        pos == s.len()
    } else if pos + 8 > s.len() {
        false
    } else if be32(s, pos) >= 8 && pos + be32(s, pos) <= s.len() && four_cc(s, pos + 4) != t {
        children_tile_without(s, pos + be32(s, pos), t)
    } else {
        false
    }
}

/// The child walk of a moov box with a track inserted passes over the
/// moov box's own children and stops at the inserted track.
proof fn lemma_walk_to_inserted(moov: Seq<u8>, trak: Seq<u8>, pos: int)
    requires
        8 <= pos <= moov.len(),
        children_tile_without(moov, pos, type_trak()),
        trak.len() >= 8,
        be32(trak, 0) == trak.len(),
        four_cc(trak, 4) == type_trak(),
        moov.len() + trak.len() < 4294967296,
    ensures
        spec_child_from(spec_insert_trak(moov, trak), pos, type_trak()) == Some(Some(trak)),
    decreases moov.len() - pos,
{
    let m = spec_insert_trak(moov, trak);
    let n = moov.len() as int;
    assert(m.len() == n + trak.len());
    assert(usize::MAX >= 0xffff_ffff);
    assert forall|i: int| 4 <= i < n implies m[i] == moov[i] by {
        assert(m[i] == (be32_bytes((moov.len() + trak.len()) as int) + moov.subrange(4, n))[i]);
    }
    assert forall|j: int| 0 <= j < trak.len() implies m[n + j] == trak[j] by {}
    if pos == n {
        assert(be32(m, pos) == be32(trak, 0));
        assert(four_cc(m, pos + 4) =~= four_cc(trak, 4));
        assert(m.subrange(pos, pos + trak.len()) =~= trak);
    } else {
        assert(be32(m, pos) == be32(moov, pos));
        assert(four_cc(m, pos + 4) =~= four_cc(moov, pos + 4));
        lemma_walk_to_inserted(moov, trak, pos + be32(moov, pos));
    }
}

/// A track inserted into a moov box is the track that the lookup of `trak`
/// children then finds: where the moov box's children carry plain sizes,
/// fill it exactly and hold no track, and the track carries its own length
/// and the type `trak`, the first `trak` child of the result is that track.
pub proof fn inserted_trak_is_found(moov: Seq<u8>, trak: Seq<u8>)
    requires
        moov.len() >= 8,
        children_tile_without(moov, 8, type_trak()),
        trak.len() >= 8,
        be32(trak, 0) == trak.len(),
        four_cc(trak, 4) == type_trak(),
        moov.len() + trak.len() < 4294967296,
    ensures
        child_walkable(spec_insert_trak(moov, trak), type_trak()),
        spec_child_box(spec_insert_trak(moov, trak), type_trak()) == Some(Some(trak)),
{
    lemma_walk_to_inserted(moov, trak, 8);
}

// ---------------------------------------------------------------------------
// Chunk offset rewriting
// ---------------------------------------------------------------------------

/// A 32-bit chunk offset shifted by `delta`: `None` when the signed 64-bit
/// sum overflows, otherwise the sum clamped at 0 and taken modulo 2^32.
pub open spec fn shifted_offset32(old: int, delta: int) -> Option<int> {
    let v = old + delta;
    if v > i64::MAX || v < i64::MIN {
        None
    } else if v < 0 {
        Some(0)
    } else {
        Some(v % 4294967296)
    }
}

/// A 64-bit chunk offset (read as a signed 64-bit value) shifted by `delta`:
/// `None` when the signed sum overflows, otherwise the sum clamped at 0.
pub open spec fn shifted_offset64(old: int, delta: int) -> Option<int> {
    let signed = if old >= 9223372036854775808 { old - 18446744073709551616 } else { old };
    let v = signed + delta;
    if v > i64::MAX || v < i64::MIN {
        None
    } else if v < 0 {
        Some(0)
    } else {
        Some(v)
    }
}

/// Rewrites the 4-byte entries `k..count` of the stco box in `[start, end)`.
pub open spec fn spec_stco_entries(s: Seq<u8>, start: int, end: int, delta: int, k: int, count: int) -> Option<Seq<u8>>
    decreases count - k,
{
    if k >= count {
        Some(s)
    } else {
        let p = start + 16 + 4 * k;
        if p + 4 > end {
            Some(s)
        } else {
            match shifted_offset32(be32(s, p), delta) {
                None => None,
                Some(nv) => spec_stco_entries(overwrite(s, p, be32_bytes(nv)), start, end, delta, k + 1, count),
            }
        }
    }
}

/// The stco box in `[start, end)` of `s` with every chunk offset shifted by
/// `delta` (entries beyond the box's end are left alone); `None` on overflow.
/// Layout: size(4) type(4) version+flags(4) entry_count(4) offsets(4 each).
pub open spec fn spec_adjust_stco(s: Seq<u8>, start: int, end: int, delta: int) -> Option<Seq<u8>> {
    if end - start < 16 {
        Some(s)
    } else {
        spec_stco_entries(s, start, end, delta, 0, be32(s, start + 12))
    }
}

/// Rewrites the 8-byte entries `k..count` of the co64 box in `[start, end)`.
pub open spec fn spec_co64_entries(s: Seq<u8>, start: int, end: int, delta: int, k: int, count: int) -> Option<Seq<u8>>
    decreases count - k,
{
    if k >= count {
        Some(s)
    } else {
        let p = start + 16 + 8 * k;
        if p + 8 > end {
            Some(s)
        } else {
            match shifted_offset64(be64(s, p), delta) {
                None => None,
                Some(nv) => spec_co64_entries(overwrite(s, p, be64_bytes(nv)), start, end, delta, k + 1, count),
            }
        }
    }
}

/// The co64 box in `[start, end)` of `s` with every chunk offset shifted by
/// `delta`; `None` on overflow.
pub open spec fn spec_adjust_co64(s: Seq<u8>, start: int, end: int, delta: int) -> Option<Seq<u8>> {
    if end - start < 16 {
        Some(s)
    } else {
        spec_co64_entries(s, start, end, delta, 0, be32(s, start + 12))
    }
}

fn try_adjust_stco(buf: &mut Vec<u8>, start: usize, end: usize, delta: i64) -> (ok: bool)
    requires
        start <= end <= old(buf)@.len(),
    ensures
        final(buf)@.len() == old(buf)@.len(),
        ok == spec_adjust_stco(old(buf)@, start as int, end as int, delta as int) is Some,
        ok ==> final(buf)@ == spec_adjust_stco(old(buf)@, start as int, end as int, delta as int)->Some_0,
{
    let n = buf.len();
    if end - start < 16 {
        return true;
    }
    let count = read_be32(buf.as_slice(), start + 12);
    let ghost whole = spec_adjust_stco(buf@, start as int, end as int, delta as int);
    let mut k: u32 = 0;
    let mut p: usize = start + 16;
    while k < count
        invariant
            buf@.len() == n,
            start + 16 <= end <= n,
            p == start + 16 + 4 * k,
            k <= count,
            n == old(buf)@.len(),
            count == be32(old(buf)@, start + 12),
            whole == spec_adjust_stco(old(buf)@, start as int, end as int, delta as int),
            whole == spec_stco_entries(buf@, start as int, end as int, delta as int, k as int, count as int),
        decreases count - k,
    {
        if p > end || end - p < 4 {
            return true;
        }
        let old_offset = read_be32(buf.as_slice(), p) as i64;
        let v = match old_offset.checked_add(delta) {
            Some(v) => v,
            None => return false,
        };
        let clamped: u64 = if v < 0 { 0 } else { v as u64 };
        let nv = (clamped % 4294967296) as u32;
        write_be32_at(buf, p, nv);
        k = k + 1;
        p = p + 4;
    }
    true
}

fn try_adjust_co64(buf: &mut Vec<u8>, start: usize, end: usize, delta: i64) -> (ok: bool)
    requires
        start <= end <= old(buf)@.len(),
    ensures
        final(buf)@.len() == old(buf)@.len(),
        ok == spec_adjust_co64(old(buf)@, start as int, end as int, delta as int) is Some,
        ok ==> final(buf)@ == spec_adjust_co64(old(buf)@, start as int, end as int, delta as int)->Some_0,
{
    let n = buf.len();
    if end - start < 16 {
        return true;
    }
    let count = read_be32(buf.as_slice(), start + 12);
    let ghost whole = spec_adjust_co64(buf@, start as int, end as int, delta as int);
    let mut k: u32 = 0;
    let mut p: usize = start + 16;
    while k < count
        invariant
            buf@.len() == n,
            start + 16 <= end <= n,
            p == start + 16 + 8 * k,
            k <= count,
            n == old(buf)@.len(),
            count == be32(old(buf)@, start + 12),
            whole == spec_adjust_co64(old(buf)@, start as int, end as int, delta as int),
            whole == spec_co64_entries(buf@, start as int, end as int, delta as int, k as int, count as int),
        decreases count - k,
    {
        if p > end || end - p < 8 {
            return true;
        }
        let raw = read_be64(buf.as_slice(), p);
        let old_offset: i64 = if raw >= 9223372036854775808 {
            (raw - 9223372036854775808) as i64 - 9223372036854775807 - 1
        } else {
            raw as i64
        };
        let v = match old_offset.checked_add(delta) {
            Some(v) => v,
            None => return false,
        };
        let nv: u64 = if v < 0 { 0 } else { v as u64 };
        write_be64_at(buf, p, nv);
        k = k + 1;
        p = p + 8;
    }
    true
}

/// Adjust 32-bit chunk offsets in an stco box by `delta`.
pub fn adjust_stco(box_data: &mut Vec<u8>, delta: i64)
    requires
        spec_adjust_stco(old(box_data)@, 0, old(box_data)@.len() as int, delta as int) is Some,
    ensures
        final(box_data)@ == spec_adjust_stco(old(box_data)@, 0, old(box_data)@.len() as int, delta as int)->Some_0,
{
    let n = box_data.len();
    let _ = try_adjust_stco(box_data, 0, n, delta);
}

/// Adjust 64-bit chunk offsets in a co64 box by `delta`.
pub fn adjust_co64(box_data: &mut Vec<u8>, delta: i64)
    requires
        spec_adjust_co64(old(box_data)@, 0, old(box_data)@.len() as int, delta as int) is Some,
    ensures
        final(box_data)@ == spec_adjust_co64(old(box_data)@, 0, old(box_data)@.len() as int, delta as int)->Some_0,
{
    let n = box_data.len();
    let _ = try_adjust_co64(box_data, 0, n, delta);
}

// ---------------------------------------------------------------------------
// Recursive offset rewriting
// ---------------------------------------------------------------------------

/// The box type "trak".
pub open spec fn type_trak() -> Seq<u8> { seq![116u8, 114, 97, 107] }
/// The box type "mdia".
pub open spec fn type_mdia() -> Seq<u8> { seq![109u8, 100, 105, 97] }
/// The box type "minf".
pub open spec fn type_minf() -> Seq<u8> { seq![109u8, 105, 110, 102] }
/// The box type "stbl".
pub open spec fn type_stbl() -> Seq<u8> { seq![115u8, 116, 98, 108] }
/// The box type "moov".
pub open spec fn type_moov() -> Seq<u8> { seq![109u8, 111, 111, 118] }
/// The box type "stco".
pub open spec fn type_stco() -> Seq<u8> { seq![115u8, 116, 99, 111] }
/// The box type "co64".
pub open spec fn type_co64() -> Seq<u8> { seq![99u8, 111, 54, 52] }
/// The box type "ftyp".
pub open spec fn type_ftyp() -> Seq<u8> { seq![102u8, 116, 121, 112] }
/// The box type "mdat".
pub open spec fn type_mdat() -> Seq<u8> { seq![109u8, 100, 97, 116] }

const TRAK: [u8; 4] = [116, 114, 97, 107];
const MDIA: [u8; 4] = [109, 100, 105, 97];
const MINF: [u8; 4] = [109, 105, 110, 102];
const STBL: [u8; 4] = [115, 116, 98, 108];
const MOOV: [u8; 4] = [109, 111, 111, 118];
const STCO: [u8; 4] = [115, 116, 99, 111];
const CO64: [u8; 4] = [99, 111, 54, 52];
const FTYP: [u8; 4] = [102, 116, 121, 112];
const MDAT: [u8; 4] = [109, 100, 97, 116];

/// Boxes whose children may hold chunk offset tables.
pub open spec fn is_offset_container(t: Seq<u8>) -> bool {
    t == type_trak() || t == type_mdia() || t == type_minf() || t == type_stbl() || t == type_moov()
}

/// The box in `[start, end)` of `s` with every stco/co64 table inside it
/// (reached through trak/mdia/minf/stbl/moov containers) shifted by `delta`;
/// `None` when a shift overflows. Windows shorter than a header are left
/// alone.
pub open spec fn spec_adjust_box(s: Seq<u8>, start: int, end: int, delta: int) -> Option<Seq<u8>>
    decreases end - start, end - start + 1,
{
    if start < 0 || end < start + 8 {
        Some(s)
    } else {
        let t = four_cc(s, start + 4);
        if t == type_stco() {
            spec_adjust_stco(s, start, end, delta)
        } else if t == type_co64() {
            spec_adjust_co64(s, start, end, delta)
        } else if is_offset_container(t) {
            spec_adjust_children(s, start, end, start + 8, delta)
        } else {
            Some(s)
        }
    }
}

/// The children of the container in `[start, end)`, from `cp` on, each
/// rewritten by `spec_adjust_box`. The child walk stops at a zero size or at
/// a child running past the container's end.
pub open spec fn spec_adjust_children(s: Seq<u8>, start: int, end: int, cp: int, delta: int) -> Option<Seq<u8>>
    decreases end - start, end - cp,
{
    if start < 0 || cp < start + 8 || cp + 8 > end {
        Some(s)
    } else {
        let size = be32(s, cp);
        if size == 0 || cp + size > end {
            Some(s)
        } else {
            match spec_adjust_box(s, cp, cp + size, delta) {
                None => None,
                Some(s2) => spec_adjust_children(s2, start, end, cp + size, delta),
            }
        }
    }
}

fn is_container_type(buf: &[u8], p: usize) -> (r: bool)
    requires
        p + 4 <= buf@.len(),
    ensures
        r == is_offset_container(four_cc(buf@, p as int)),
{
    same_four_cc(buf, p, &TRAK) || same_four_cc(buf, p, &MDIA) || same_four_cc(buf, p, &MINF)
        || same_four_cc(buf, p, &STBL) || same_four_cc(buf, p, &MOOV)
}

fn try_adjust_box(buf: &mut Vec<u8>, start: usize, end: usize, delta: i64) -> (ok: bool)
    requires
        start <= end <= old(buf)@.len(),
    ensures
        final(buf)@.len() == old(buf)@.len(),
        ok == spec_adjust_box(old(buf)@, start as int, end as int, delta as int) is Some,
        ok ==> final(buf)@ == spec_adjust_box(old(buf)@, start as int, end as int, delta as int)->Some_0,
    decreases end - start,
{
    let n = buf.len();
    if end - start < 8 {
        return true;
    }
    proof {
        assert(STCO@ == type_stco());
        assert(CO64@ == type_co64());
        assert(TRAK@ == type_trak());
        assert(MDIA@ == type_mdia());
        assert(MINF@ == type_minf());
        assert(STBL@ == type_stbl());
        assert(MOOV@ == type_moov());
    }
    if same_four_cc(buf.as_slice(), start + 4, &STCO) {
        return try_adjust_stco(buf, start, end, delta);
    }
    if same_four_cc(buf.as_slice(), start + 4, &CO64) {
        return try_adjust_co64(buf, start, end, delta);
    }
    if !is_container_type(buf.as_slice(), start + 4) {
        return true;
    }
    let ghost whole = spec_adjust_box(buf@, start as int, end as int, delta as int);
    let mut cp: usize = start + 8;
    loop
        invariant
            buf@.len() == n,
            n == old(buf)@.len(),
            start + 8 <= cp <= end <= n,
            whole == spec_adjust_box(old(buf)@, start as int, end as int, delta as int),
            whole == spec_adjust_children(buf@, start as int, end as int, cp as int, delta as int),
        decreases end - cp,
    {
        if end - cp < 8 {
            return true;
        }
        let size = read_be32(buf.as_slice(), cp) as usize;
        if size == 0 || size > end - cp {
            return true;
        }
        let ok = try_adjust_box(buf, cp, cp + size, delta);
        if !ok {
            return false;
        }
        cp = cp + size;
    }
}

/// Recursively find stco/co64 boxes within the box `box_data` and shift
/// their offsets by `delta`.
pub fn adjust_offsets_in_box(box_data: &mut Vec<u8>, delta: i64)
    requires
        spec_adjust_box(old(box_data)@, 0, old(box_data)@.len() as int, delta as int) is Some,
    ensures
        final(box_data)@ == spec_adjust_box(old(box_data)@, 0, old(box_data)@.len() as int, delta as int)->Some_0,
{
    let n = box_data.len();
    let _ = try_adjust_box(box_data, 0, n, delta);
}

/// The moov box `s` with the chunk offsets of its first trak shifted by
/// `video_delta` and those of every later trak by `audio_delta`, walking the
/// moov's children from `pos` (`count` traks already seen); `None` when a
/// shift overflows.
pub open spec fn spec_adjust_moov_from(
    s: Seq<u8>,
    pos: int,
    n: int,
    count: int,
    video_delta: int,
    audio_delta: int,
) -> Option<Seq<u8>>
    decreases n - pos,
{
    if pos < 8 || pos + 8 > n {
        Some(s)
    } else {
        let size = be32(s, pos);
        if size == 0 || pos + size > n {
            Some(s)
        } else if four_cc(s, pos + 4) == type_trak() {
            match spec_adjust_box(s, pos, pos + size, if count == 0 { video_delta } else { audio_delta }) {
                None => None,
                Some(s2) => spec_adjust_moov_from(s2, pos + size, n, count + 1, video_delta, audio_delta),
            }
        } else {
            spec_adjust_moov_from(s, pos + size, n, count, video_delta, audio_delta)
        }
    }
}

/// The moov box with its chunk offsets adjusted: the first trak (video) by
/// `video_delta`, the later ones (audio) by `audio_delta`.
#[verifier::opaque]
pub open spec fn spec_adjust_moov(moov: Seq<u8>, video_delta: int, audio_delta: int) -> Option<Seq<u8>> {
    spec_adjust_moov_from(moov, 8, moov.len() as int, 0, video_delta, audio_delta)
}

/// Adjusts the chunk offsets of a moov box; `None` when a shift overflows.
pub fn try_adjust_chunk_offsets_in_moov(moov_data: &[u8], video_delta: i64, audio_delta: i64) -> (r: Option<Vec<u8>>)
    ensures
        match r {
            Some(v) => spec_adjust_moov(moov_data@, video_delta as int, audio_delta as int) == Some(v@),
            None => spec_adjust_moov(moov_data@, video_delta as int, audio_delta as int) is None,
        },
{
    reveal(spec_adjust_moov);
    let mut result: Vec<u8> = Vec::new();
    push_range(&mut result, moov_data, 0, moov_data.len());
    assert(result@ =~= moov_data@);
    let n = result.len();
    let ghost whole = spec_adjust_moov(moov_data@, video_delta as int, audio_delta as int);
    let mut seen_trak = false;
    let ghost mut count: int = 0;
    let mut pos: usize = 8;
    proof {
        assert(TRAK@ == type_trak());
    }
    loop
        invariant
            result@.len() == n,
            n == moov_data@.len(),
            8 <= pos,
            seen_trak == (count != 0),
            count >= 0,
            whole == spec_adjust_moov(moov_data@, video_delta as int, audio_delta as int),
            whole == spec_adjust_moov_from(result@, pos as int, n as int, count, video_delta as int, audio_delta as int),
            TRAK@ == type_trak(),
        decreases n - pos,
    {
        if pos > n || n - pos < 8 {
            return Some(result);
        }
        let size = read_be32(result.as_slice(), pos) as usize;
        if size == 0 || size > n - pos {
            return Some(result);
        }
        if same_four_cc(result.as_slice(), pos + 4, &TRAK) {
            let delta = if seen_trak { audio_delta } else { video_delta };
            let ok = try_adjust_box(&mut result, pos, pos + size, delta);
            if !ok {
                return None;
            }
            seen_trak = true;
            proof {
                count = count + 1;
            }
        }
        pos = pos + size;
    }
}

/// Whether every chunk offset shift inside `moov` stays within signed 64-bit
/// range.
pub open spec fn moov_adjustable(moov: Seq<u8>, video_delta: int, audio_delta: int) -> bool {
    spec_adjust_moov(moov, video_delta, audio_delta) is Some
}

/// Adjust chunk offsets (stco/co64) in a merged moov box: the first trak's
/// (video) by `video_delta`, the later traks' (audio) by `audio_delta`.
pub fn adjust_chunk_offsets_in_moov(moov_data: &[u8], video_delta: i64, audio_delta: i64) -> (r: Vec<u8>)
    requires
        moov_adjustable(moov_data@, video_delta as int, audio_delta as int),
    ensures
        spec_adjust_moov(moov_data@, video_delta as int, audio_delta as int) == Some(r@),
{
    match try_adjust_chunk_offsets_in_moov(moov_data, video_delta, audio_delta) {
        Some(v) => v,
        None => {
            assert(false);
            Vec::new()
        },
    }
}

// ---------------------------------------------------------------------------
// Merging
// ---------------------------------------------------------------------------

/// Every box found by a top-level walk lies inside the data, with a size of
/// at least its own header.
pub proof fn lemma_walk_boxes_within(s: Seq<u8>, pos: int)
    ensures
        spec_walk_boxes(s, pos) matches Some(bs) ==> forall|i: int| 0 <= i < bs.len() ==> {
            &&& 0 <= pos <= #[trigger] bs[i].1
            &&& bs[i].1 + bs[i].2 <= s.len()
            &&& bs[i].2 >= 8
            &&& bs[i].1 + 8 <= bs[i].3
            &&& bs[i].3 + bs[i].4 == bs[i].1 + bs[i].2
            &&& bs[i].4 >= 0
            &&& bs[i].1 + bs[i].2 <= usize::MAX
        },
    decreases s.len() - pos,
{
    if pos < 0 || pos + 8 > s.len() {
    } else {
        let size = be32(s, pos);
        if size == 1 && pos + 16 > s.len() {
        } else {
            let actual = if size == 1 { be64(s, pos + 8) } else if size == 0 { s.len() - pos } else { size };
            let header = if size == 1 { 16int } else { 8int };
            if actual > 0 && pos + actual <= usize::MAX && pos + actual <= s.len() && actual >= header {
                lemma_walk_boxes_within(s, pos + actual);
                match spec_walk_boxes(s, pos + actual) {
                    None => {},
                    Some(rest) => {
                        let bs = seq![(four_cc(s, pos + 4), pos, actual, pos + header, actual - header)] + rest;
                        assert(spec_walk_boxes(s, pos) == Some(bs));
                        assert forall|i: int| 0 <= i < bs.len() implies {
                            &&& 0 <= pos <= #[trigger] bs[i].1
                            &&& bs[i].1 + bs[i].2 <= s.len()
                            &&& bs[i].2 >= 8
                            &&& bs[i].1 + 8 <= bs[i].3
                            &&& bs[i].3 + bs[i].4 == bs[i].1 + bs[i].2
                            &&& bs[i].4 >= 0
                            &&& bs[i].1 + bs[i].2 <= usize::MAX
                        } by {
                            if i > 0 {
                                assert(bs[i] == rest[i - 1]);
                            }
                        }
                    },
                }
            }
        }
    }
}

/// A child found by the child walk lies inside the parent.
pub proof fn lemma_child_within(s: Seq<u8>, pos: int, t: Seq<u8>)
    ensures
        spec_child_from(s, pos, t) matches Some(Some(c)) ==> c.len() <= s.len(),
    decreases s.len() - pos,
{
    if pos < 0 || pos + 8 > s.len() {
    } else {
        let size = be32(s, pos);
        let actual = if size == 1 && pos + 16 <= s.len() {
            be64(s, pos + 8)
        } else if size == 0 {
            s.len() - pos
        } else {
            size
        };
        if actual > 0 && pos + actual <= usize::MAX && pos + actual <= s.len() && four_cc(s, pos + 4) != t {
            lemma_child_within(s, pos + actual, t);
        }
    }
}

/// The mdat header for a payload: 8 bytes (32-bit size) when the total fits
/// in 32 bits, else 16 bytes (size field 1, then a 64-bit size).
pub open spec fn mdat_header(payload: int) -> Seq<u8> {
    if payload + 8 > u32::MAX {
        be32_bytes(1) + type_mdat() + be64_bytes(16 + payload)
    } else {
        be32_bytes(8 + payload) + type_mdat()
    }
}

/// The data of a box, given as a plain-value description: `[offset, offset+size)`.
pub open spec fn box_bytes(s: Seq<u8>, b: BoxSpec) -> Seq<u8> {
    s.subrange(b.1, b.1 + b.2)
}

/// The payload of a box: `[data offset, data offset + data size)`.
pub open spec fn box_payload(s: Seq<u8>, b: BoxSpec) -> Seq<u8> {
    s.subrange(b.3, b.3 + b.4)
}

/// The merged file once every box is found: the video's ftyp, the video's
/// moov with the audio trak appended and the chunk offsets moved to the new
/// payload positions, then one mdat holding the video payload followed by
/// the audio payload. `None` when an offset shift overflows.
pub open spec fn spec_assemble(
    video: Seq<u8>,
    audio: Seq<u8>,
    ftyp: BoxSpec,
    vmoov: BoxSpec,
    vmdat: BoxSpec,
    amdat: BoxSpec,
    trak: Seq<u8>,
) -> Option<Seq<u8>> {
    let ftyp_data = box_bytes(video, ftyp);
    let merged = spec_insert_trak(box_bytes(video, vmoov), trak);
    let vpayload = box_payload(video, vmdat);
    let apayload = box_payload(audio, amdat);
    let payload = vpayload.len() + apayload.len();
    let header_len = if payload + 8 > u32::MAX { 16int } else { 8int };
    let audio_delta = ftyp_data.len() + merged.len() + header_len + vpayload.len() - amdat.3;
    let video_delta = ftyp_data.len() + merged.len() + header_len - vmdat.3;
    match spec_adjust_moov(merged, video_delta, audio_delta) {
        None => None,
        Some(moov) => Some(ftyp_data + moov + mdat_header(payload as int) + vpayload + apayload),
    }
}

/// The result of merging a video-only MP4 with an audio-only MP4: `None`
/// where a box walk cannot go on or an offset shift overflows; an error
/// message when a required box is missing (checked in this order: video
/// ftyp, moov, mdat, audio moov, mdat, then the audio moov's trak);
/// otherwise the merged file (see `spec_assemble`).
pub open spec fn spec_merge(video: Seq<u8>, audio: Seq<u8>) -> Option<Result<Seq<u8>, Seq<char>>> {
    match (spec_walk_boxes(video, 0), spec_walk_boxes(audio, 0)) {
        (Some(vb), Some(ab)) => match (
            spec_first_box(vb, type_ftyp()),
            spec_first_box(vb, type_moov()),
            spec_first_box(vb, type_mdat()),
            spec_first_box(ab, type_moov()),
            spec_first_box(ab, type_mdat()),
        ) {
            (None, _, _, _, _) => Some(Err("Video file missing ftyp box"@)),
            (_, None, _, _, _) => Some(Err("Video file missing moov box"@)),
            (_, _, None, _, _) => Some(Err("Video file missing mdat box"@)),
            (_, _, _, None, _) => Some(Err("Audio file missing moov box"@)),
            (_, _, _, _, None) => Some(Err("Audio file missing mdat box"@)),
            (Some(f), Some(m), Some(d), Some(am), Some(ad)) =>
                match spec_child_box(box_bytes(audio, ab[am]), type_trak()) {
                    None => None,
                    Some(None) => Some(Err("Audio moov missing trak box"@)),
                    Some(Some(trak)) => match spec_assemble(video, audio, vb[f], vb[m], vb[d], ab[ad], trak) {
                        None => None,
                        Some(out) => Some(Ok(out)),
                    },
                },
        },
        _ => None,
    }
}

/// The largest input this library takes, in bytes (64 PiB): far beyond any
/// memory, and small enough that every offset arithmetic fits in 64 bits.
pub const MAX_MEDIA_BYTES: u64 = 0x100_0000_0000_0000;

fn missing_box(message: &str) -> (e: AppError)
    ensures
        e matches AppError::ParseFailed { message: m, platform_hint } && m@ == message@
            && platform_hint is None,
{
    AppError::ParseFailed { message: message.to_owned(), platform_hint: None }
}

fn box_at(boxes: &Vec<Mp4Box>, i: Option<usize>) -> (r: &Mp4Box)
    requires
        i matches Some(k) && k < boxes@.len(),
    ensures
        r == boxes@[i->Some_0 as int],
{
    match i {
        Some(k) => &boxes[k],
        None => {
            assert(false);
            &boxes[0]
        },
    }
}

/// A box that lies inside `s` with a size of at least its header.
pub open spec fn box_inside(s: Seq<u8>, b: BoxSpec) -> bool {
    &&& 0 <= b.1
    &&& b.1 + b.2 <= s.len()
    &&& b.2 >= 8
    &&& b.1 + 8 <= b.3
    &&& b.3 + b.4 == b.1 + b.2
    &&& b.4 >= 0
}

#[verifier::rlimit(50)]
fn assemble(
    video: &[u8],
    audio: &[u8],
    video_ftyp: &Mp4Box,
    video_moov: &Mp4Box,
    video_mdat: &Mp4Box,
    audio_mdat: &Mp4Box,
    audio_trak: &[u8],
) -> (r: Option<Vec<u8>>)
    requires
        video@.len() <= MAX_MEDIA_BYTES,
        audio@.len() <= MAX_MEDIA_BYTES,
        audio_trak@.len() <= audio@.len(),
        video@.len() + audio@.len() <= usize::MAX,
        box_inside(video@, box_spec(*video_ftyp)),
        box_inside(video@, box_spec(*video_moov)),
        box_inside(video@, box_spec(*video_mdat)),
        box_inside(audio@, box_spec(*audio_mdat)),
    ensures
        r matches Some(v) ==> spec_assemble(video@, audio@, box_spec(*video_ftyp), box_spec(*video_moov),
            box_spec(*video_mdat), box_spec(*audio_mdat), audio_trak@) == Some(v@),
        r is None ==> spec_assemble(video@, audio@, box_spec(*video_ftyp), box_spec(*video_moov),
            box_spec(*video_mdat), box_spec(*audio_mdat), audio_trak@) is None,
{
    let _ = video.len();
    let _ = audio.len();
    let ghost vf = box_spec(*video_ftyp);
    let ghost vm = box_spec(*video_moov);
    let ghost vd = box_spec(*video_mdat);
    let ghost ad = box_spec(*audio_mdat);
    let mut video_moov_data: Vec<u8> = Vec::new();
    push_range(&mut video_moov_data, video, video_moov.offset, video_moov.offset + video_moov.size);
    assert(video_moov_data@ == box_bytes(video@, vm));
    let merged_moov = insert_trak_into_moov(video_moov_data.as_slice(), audio_trak);
    let ghost merged = spec_insert_trak(box_bytes(video@, vm), audio_trak@);
    assert(merged_moov@ == merged);

    let ftyp_size = video_ftyp.size;
    let moov_size = merged_moov.len();
    let video_payload_size = video_mdat.data_size;
    let audio_payload_size = audio_mdat.data_size;
    let payload_size: u64 = video_payload_size as u64 + audio_payload_size as u64;
    assert(payload_size == box_payload(video@, vd).len() + box_payload(audio@, ad).len());
    let header_size: u64 = if payload_size + 8 > 4294967295 { 16 } else { 8 };
    let audio_offset_delta: i64 = (ftyp_size as u64 + moov_size as u64 + header_size
        + video_payload_size as u64) as i64 - audio_mdat.data_offset as i64;
    let video_offset_delta: i64 = (ftyp_size as u64 + moov_size as u64 + header_size) as i64
        - video_mdat.data_offset as i64;
    assert(box_bytes(video@, vf).len() == ftyp_size);
    assert(box_payload(video@, vd).len() == video_payload_size);
    proof {
        let ftyp_data = box_bytes(video@, vf);
        let vpayload = box_payload(video@, vd);
        let apayload = box_payload(audio@, ad);
        let header_len = if payload_size + 8 > u32::MAX { 16int } else { 8int };
        assert(header_size == header_len);
        assert(audio_offset_delta == ftyp_data.len() + merged.len() + header_len + vpayload.len() - ad.3);
        assert(video_offset_delta == ftyp_data.len() + merged.len() + header_len - vd.3);
    }
    let final_moov = match try_adjust_chunk_offsets_in_moov(
        merged_moov.as_slice(),
        video_offset_delta,
        audio_offset_delta,
    ) {
        None => return None,
        Some(m) => m,
    };
    let output = concat_output(video, audio, video_ftyp, final_moov.as_slice(), video_mdat, audio_mdat);
    Some(output)
}

fn push_mdat_header(out: &mut Vec<u8>, payload: u64)
    requires
        payload <= 2 * MAX_MEDIA_BYTES,
    ensures
        final(out)@ == old(out)@ + mdat_header(payload as int),
{
    proof {
        assert(MDAT@ == type_mdat());
        assert(MDAT@.subrange(0, 4) =~= type_mdat());
    }
    if payload + 8 > 4294967295 {
        push_be32(out, 1);
        push_range(out, &MDAT, 0, 4);
        push_be64(out, 16 + payload);
    } else {
        push_be32(out, (8 + payload) as u32);
        push_range(out, &MDAT, 0, 4);
    }
    assert(final(out)@ =~= old(out)@ + mdat_header(payload as int));
}

fn concat_output(
    video: &[u8],
    audio: &[u8],
    video_ftyp: &Mp4Box,
    final_moov: &[u8],
    video_mdat: &Mp4Box,
    audio_mdat: &Mp4Box,
) -> (r: Vec<u8>)
    requires
        video@.len() <= MAX_MEDIA_BYTES,
        audio@.len() <= MAX_MEDIA_BYTES,
        box_inside(video@, box_spec(*video_ftyp)),
        box_inside(video@, box_spec(*video_mdat)),
        box_inside(audio@, box_spec(*audio_mdat)),
    ensures
        r@ == box_bytes(video@, box_spec(*video_ftyp)) + final_moov@ + mdat_header(
            (box_payload(video@, box_spec(*video_mdat)).len() + box_payload(audio@, box_spec(*audio_mdat)).len()) as int,
        ) + box_payload(video@, box_spec(*video_mdat)) + box_payload(audio@, box_spec(*audio_mdat)),
{
    let _ = video.len();
    let _ = audio.len();
    let mut output: Vec<u8> = Vec::new();
    push_range(&mut output, video, video_ftyp.offset, video_ftyp.offset + video_ftyp.size);
    push_range(&mut output, final_moov, 0, final_moov.len());
    let payload: u64 = video_mdat.data_size as u64 + audio_mdat.data_size as u64;
    push_mdat_header(&mut output, payload);
    push_range(&mut output, video, video_mdat.data_offset, video_mdat.data_offset + video_mdat.data_size);
    push_range(&mut output, audio, audio_mdat.data_offset, audio_mdat.data_offset + audio_mdat.data_size);
    assert(final_moov@.subrange(0, final_moov@.len() as int) =~= final_moov@);
    output
}

/// Merges a video-only MP4 and an audio-only MP4 (see `spec_merge`); `None`
/// exactly where `spec_merge` is `None`.
pub fn try_merge_video_audio(video_data: &[u8], audio_data: &[u8]) -> (r: Option<Result<Vec<u8>, AppError>>)
    requires
        video_data@.len() <= MAX_MEDIA_BYTES,
        audio_data@.len() <= MAX_MEDIA_BYTES,
        video_data@.len() + audio_data@.len() <= usize::MAX,
    ensures
        match r {
            None => spec_merge(video_data@, audio_data@) is None,
            Some(Ok(v)) => spec_merge(video_data@, audio_data@) == Some(Ok::<Seq<u8>, Seq<char>>(v@)),
            Some(Err(e)) => e matches AppError::ParseFailed { message, platform_hint }
                && platform_hint is None
                && spec_merge(video_data@, audio_data@) == Some(Err::<Seq<u8>, Seq<char>>(message@)),
        },
{
    let video = video_data;
    let audio = audio_data;
    let vboxes = match try_parse_mp4_boxes(video) {
        Some(b) => b,
        None => return None,
    };
    let aboxes = match try_parse_mp4_boxes(audio) {
        Some(b) => b,
        None => return None,
    };
    let ghost vb = vboxes@.map_values(|b: Mp4Box| box_spec(b));
    let ghost ab = aboxes@.map_values(|b: Mp4Box| box_spec(b));
    proof {
        assert(FTYP@ == type_ftyp());
        assert(MOOV@ == type_moov());
        assert(MDAT@ == type_mdat());
        assert(TRAK@ == type_trak());
        lemma_walk_boxes_within(video@, 0);
        lemma_walk_boxes_within(audio@, 0);
        lemma_first_box_in_range(vb, type_ftyp(), 0);
        lemma_first_box_in_range(vb, type_moov(), 0);
        lemma_first_box_in_range(vb, type_mdat(), 0);
        lemma_first_box_in_range(ab, type_moov(), 0);
        lemma_first_box_in_range(ab, type_mdat(), 0);
    }
    let fi = find_box_index(vboxes.as_slice(), &FTYP);
    if fi.is_none() {
        return Some(Err(missing_box("Video file missing ftyp box")));
    }
    let mi = find_box_index(vboxes.as_slice(), &MOOV);
    if mi.is_none() {
        return Some(Err(missing_box("Video file missing moov box")));
    }
    let di = find_box_index(vboxes.as_slice(), &MDAT);
    if di.is_none() {
        return Some(Err(missing_box("Video file missing mdat box")));
    }
    let ami = find_box_index(aboxes.as_slice(), &MOOV);
    if ami.is_none() {
        return Some(Err(missing_box("Audio file missing moov box")));
    }
    let adi = find_box_index(aboxes.as_slice(), &MDAT);
    if adi.is_none() {
        return Some(Err(missing_box("Audio file missing mdat box")));
    }
    let video_ftyp = box_at(&vboxes, fi);
    let video_moov = box_at(&vboxes, mi);
    let video_mdat = box_at(&vboxes, di);
    let audio_moov = box_at(&aboxes, ami);
    let audio_mdat = box_at(&aboxes, adi);
    proof {
        assert(box_spec(*video_ftyp) == vb[fi->Some_0 as int]);
        assert(box_spec(*video_moov) == vb[mi->Some_0 as int]);
        assert(box_spec(*video_mdat) == vb[di->Some_0 as int]);
        assert(box_spec(*audio_moov) == ab[ami->Some_0 as int]);
        assert(box_spec(*audio_mdat) == ab[adi->Some_0 as int]);
    }

    let mut audio_moov_data: Vec<u8> = Vec::new();
    push_range(&mut audio_moov_data, audio, audio_moov.offset, audio_moov.offset + audio_moov.size);
    let audio_trak = match try_extract_child_box(audio_moov_data.as_slice(), &TRAK) {
        None => return None,
        Some(None) => return Some(Err(missing_box("Audio moov missing trak box"))),
        Some(Some(t)) => t,
    };
    proof {
        lemma_child_within(audio_moov_data@, 8, type_trak());
        assert(box_inside(video@, vb[fi->Some_0 as int]));
        assert(box_inside(video@, vb[mi->Some_0 as int]));
        assert(box_inside(video@, vb[di->Some_0 as int]));
        assert(box_inside(audio@, ab[adi->Some_0 as int]));
        assert(audio_moov_data@ == box_bytes(audio@, ab[ami->Some_0 as int]));
    }

    match assemble(video, audio, video_ftyp, video_moov, video_mdat, audio_mdat, audio_trak.as_slice()) {
        None => None,
        Some(out) => Some(Ok(out)),
    }
}

/// Whether merging `video` and `audio` goes through without a box walk that
/// cannot go on or an offset shift that overflows.
pub open spec fn mergeable(video: Seq<u8>, audio: Seq<u8>) -> bool {
    spec_merge(video, audio) is Some
}

/// Merge a video-only MP4 and an audio-only MP4 into a single MP4 file
/// (see `spec_merge`). No re-encoding is performed: this is a pure remux.
pub fn merge_video_audio(video_data: &[u8], audio_data: &[u8]) -> (r: Result<Vec<u8>, AppError>)
    requires
        video_data@.len() <= MAX_MEDIA_BYTES,
        audio_data@.len() <= MAX_MEDIA_BYTES,
        video_data@.len() + audio_data@.len() <= usize::MAX,
        mergeable(video_data@, audio_data@),
    ensures
        match r {
            Ok(v) => spec_merge(video_data@, audio_data@) == Some(Ok::<Seq<u8>, Seq<char>>(v@)),
            Err(e) => e matches AppError::ParseFailed { message, platform_hint }
                && platform_hint is None
                && spec_merge(video_data@, audio_data@) == Some(Err::<Seq<u8>, Seq<char>>(message@)),
        },
{
    match try_merge_video_audio(video_data, audio_data) {
        Some(r) => r,
        None => {
            assert(false);
            Ok(Vec::new())
        },
    }
}

} // verus!
