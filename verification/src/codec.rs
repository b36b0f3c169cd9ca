//! The message codec: a deterministic, self-describing byte representation
//! for every protocol value, with decoding that validates structure before
//! trusting any embedded length.
//!
//! All integers travel big-endian. Variable-length data carries a 32-bit
//! length prefix. A decoder either consumes exactly the bytes the matching
//! encoder would have produced, or fails; it never reads past a length field
//! that the buffer cannot honour.

use vstd::prelude::*;
use vstd::utf8::{valid_utf8, decode_utf8, encode_utf8};
use vstd::utf8::{encode_utf8_valid_utf8, encode_utf8_decode_utf8, decode_utf8_encode_utf8};
use vstd::string::{StrSliceExecFns, StringSliceAdditionalSpecFns};
use crate::protocol::{FileType, FileStat, DirEntryView, DirEntry};
use crate::protocol::{NfsOperation, OperationView, NfsResponse, ResponseView};

verus! {

// ---------------------------------------------------------------------------
// Big-endian integers
// ---------------------------------------------------------------------------

/// The four-byte big-endian representation of a 32-bit integer.
pub open spec fn be32(x: u32) -> Seq<u8> {
    seq![(x >> 24) as u8, (x >> 16) as u8, (x >> 8) as u8, x as u8]
}

/// The eight-byte big-endian representation of a 64-bit integer.
pub open spec fn be64(x: u64) -> Seq<u8> {
    seq![
        (x >> 56) as u8,
        (x >> 48) as u8,
        (x >> 40) as u8,
        (x >> 32) as u8,
        (x >> 24) as u8,
        (x >> 16) as u8,
        (x >> 8) as u8,
        x as u8,
    ]
}

/// The 32-bit integer whose big-endian representation begins at `pos`.
pub open spec fn from_be32(b: Seq<u8>, pos: int) -> u32 {
    ((b[pos] as u32) << 24) | ((b[pos + 1] as u32) << 16) | ((b[pos + 2] as u32) << 8) | (b[pos
        + 3] as u32)
}

/// The 64-bit integer whose big-endian representation begins at `pos`.
pub open spec fn from_be64(b: Seq<u8>, pos: int) -> u64 {
    ((b[pos] as u64) << 56) | ((b[pos + 1] as u64) << 48) | ((b[pos + 2] as u64) << 40) | ((b[pos
        + 3] as u64) << 32) | ((b[pos + 4] as u64) << 24) | ((b[pos + 5] as u64) << 16) | ((b[pos
        + 6] as u64) << 8) | (b[pos + 7] as u64)
}

pub proof fn lemma_be32_round_trip(x: u32)
    ensures
        from_be32(be32(x), 0) == x,
{
    assert((((x >> 24) as u8 as u32) << 24) | (((x >> 16) as u8 as u32) << 16) | (((x
        >> 8) as u8 as u32) << 8) | (x as u8 as u32) == x) by (bit_vector);
}

pub proof fn lemma_be64_round_trip(x: u64)
    ensures
        from_be64(be64(x), 0) == x,
{
    assert((((x >> 56) as u8 as u64) << 56) | (((x >> 48) as u8 as u64) << 48) | (((x
        >> 40) as u8 as u64) << 40) | (((x >> 32) as u8 as u64) << 32) | (((x
        >> 24) as u8 as u64) << 24) | (((x >> 16) as u8 as u64) << 16) | (((x
        >> 8) as u8 as u64) << 8) | (x as u8 as u64) == x) by (bit_vector);
}

// ---------------------------------------------------------------------------
// Spec-level encoders
// ---------------------------------------------------------------------------

/// A byte string on the wire: 32-bit length prefix, then the bytes.
/// Meaningful only when the length fits the prefix.
pub open spec fn senc_bytes(d: Seq<u8>) -> Seq<u8> {
    be32(d.len() as u32) + d
}

/// A character string on the wire: its UTF-8 bytes as a byte string.
pub open spec fn senc_string(s: Seq<char>) -> Seq<u8> {
    senc_bytes(encode_utf8(s))
}

/// True when a sequence's length fits the 32-bit length prefix.
pub open spec fn len_fits(n: nat) -> bool {
    n <= u32::MAX
}

// ---------------------------------------------------------------------------
// Spec-level decoders
//
// Each takes the whole buffer and a position, and yields the decoded value
// with the position just past it, or nothing when the buffer cannot honour
// the format at that position.
// ---------------------------------------------------------------------------

pub open spec fn sdec_u8(b: Seq<u8>, pos: int) -> Option<(u8, int)> {
    if 0 <= pos && pos + 1 <= b.len() {
        Some((b[pos], pos + 1))
    } else {
        None
    }
}

pub open spec fn sdec_u32(b: Seq<u8>, pos: int) -> Option<(u32, int)> {
    if 0 <= pos && pos + 4 <= b.len() {
        Some((from_be32(b, pos), pos + 4))
    } else {
        None
    }
}

pub open spec fn sdec_u64(b: Seq<u8>, pos: int) -> Option<(u64, int)> {
    if 0 <= pos && pos + 8 <= b.len() {
        Some((from_be64(b, pos), pos + 8))
    } else {
        None
    }
}

pub open spec fn sdec_bytes(b: Seq<u8>, pos: int) -> Option<(Seq<u8>, int)> {
    match sdec_u32(b, pos) {
        Some((n, p)) => if p + n <= b.len() {
            Some((b.subrange(p, p + n), p + n))
        } else {
            None
        },
        None => None,
    }
}

pub open spec fn sdec_string(b: Seq<u8>, pos: int) -> Option<(Seq<char>, int)> {
    match sdec_bytes(b, pos) {
        Some((bs, p)) => if valid_utf8(bs) {
            Some((decode_utf8(bs), p))
        } else {
            None
        },
        None => None,
    }
}

// ---------------------------------------------------------------------------
// Positioned-parse lemmas: when a buffer carries an encoding at a position,
// the decoder finds exactly the encoded value there.
// ---------------------------------------------------------------------------

pub proof fn lemma_sdec_u8_at(b: Seq<u8>, pos: int, x: u8)
    requires
        0 <= pos,
        pos + 1 <= b.len(),
        b.subrange(pos, pos + 1) == seq![x],
    ensures
        sdec_u8(b, pos) == Some((x, pos + 1)),
{
    assert(b[pos] == b.subrange(pos, pos + 1)[0]);
}

pub proof fn lemma_sdec_u32_at(b: Seq<u8>, pos: int, x: u32)
    requires
        0 <= pos,
        pos + 4 <= b.len(),
        b.subrange(pos, pos + 4) == be32(x),
    ensures
        sdec_u32(b, pos) == Some((x, pos + 4)),
{
    let sub = b.subrange(pos, pos + 4);
    assert(b[pos] == sub[0] && b[pos + 1] == sub[1] && b[pos + 2] == sub[2] && b[pos + 3] == sub[3]);
    lemma_be32_round_trip(x);
    assert(from_be32(b, pos) == from_be32(be32(x), 0));
}

pub proof fn lemma_sdec_u64_at(b: Seq<u8>, pos: int, x: u64)
    requires
        0 <= pos,
        pos + 8 <= b.len(),
        b.subrange(pos, pos + 8) == be64(x),
    ensures
        sdec_u64(b, pos) == Some((x, pos + 8)),
{
    let sub = b.subrange(pos, pos + 8);
    assert(b[pos] == sub[0] && b[pos + 1] == sub[1] && b[pos + 2] == sub[2] && b[pos + 3] == sub[3]
        && b[pos + 4] == sub[4] && b[pos + 5] == sub[5] && b[pos + 6] == sub[6] && b[pos + 7]
        == sub[7]);
    lemma_be64_round_trip(x);
    assert(from_be64(b, pos) == from_be64(be64(x), 0));
}

pub proof fn lemma_sdec_bytes_at(b: Seq<u8>, pos: int, d: Seq<u8>)
    requires
        0 <= pos,
        len_fits(d.len()),
        pos + senc_bytes(d).len() <= b.len(),
        b.subrange(pos, pos + senc_bytes(d).len()) == senc_bytes(d),
    ensures
        sdec_bytes(b, pos) == Some((d, pos + 4 + d.len())),
{
    let e = senc_bytes(d);
    let n = d.len() as u32;
    assert(e.len() == 4 + d.len());
    assert(b.subrange(pos, pos + 4) =~= e.subrange(0, 4));
    assert(e.subrange(0, 4) =~= be32(n));
    lemma_sdec_u32_at(b, pos, n);
    assert(n == d.len());
    assert(b.subrange(pos + 4, pos + 4 + n) =~= d) by {
        assert forall|i: int| 0 <= i < n implies b.subrange(pos + 4, pos + 4 + n as int)[i] == d[i]
        by {
            assert(b[pos + 4 + i] == e[4 + i]);
            assert(e[4 + i] == d[i]);
        }
    }
}

pub proof fn lemma_sdec_string_at(b: Seq<u8>, pos: int, s: Seq<char>)
    requires
        0 <= pos,
        len_fits(encode_utf8(s).len()),
        pos + senc_string(s).len() <= b.len(),
        b.subrange(pos, pos + senc_string(s).len()) == senc_string(s),
    ensures
        sdec_string(b, pos) == Some((s, pos + senc_string(s).len())),
{
    lemma_sdec_bytes_at(b, pos, encode_utf8(s));
    broadcast use encode_utf8_valid_utf8, encode_utf8_decode_utf8;

    assert(decode_utf8(encode_utf8(s)) == s);
}

// ---------------------------------------------------------------------------
// Executable primitive encoders: each appends one wire chunk to a buffer.
// ---------------------------------------------------------------------------

pub fn push_u32(out: &mut Vec<u8>, x: u32)
    ensures
        final(out)@ == old(out)@ + be32(x),
{
    out.push((x >> 24) as u8);
    out.push((x >> 16) as u8);
    out.push((x >> 8) as u8);
    out.push(x as u8);
    assert(out@ =~= old(out)@ + be32(x));
}

pub fn push_u64(out: &mut Vec<u8>, x: u64)
    ensures
        final(out)@ == old(out)@ + be64(x),
{
    out.push((x >> 56) as u8);
    out.push((x >> 48) as u8);
    out.push((x >> 40) as u8);
    out.push((x >> 32) as u8);
    out.push((x >> 24) as u8);
    out.push((x >> 16) as u8);
    out.push((x >> 8) as u8);
    out.push(x as u8);
    assert(out@ =~= old(out)@ + be64(x));
}

pub fn push_bytes(out: &mut Vec<u8>, d: &Vec<u8>)
    requires
        len_fits(d@.len()),
    ensures
        final(out)@ == old(out)@ + senc_bytes(d@),
{
    push_u32(out, d.len() as u32);
    out.extend_from_slice(d.as_slice());
    assert(out@ =~= old(out)@ + senc_bytes(d@));
}

pub fn push_string(out: &mut Vec<u8>, s: &str)
    requires
        len_fits(encode_utf8(s@).len()),
    ensures
        final(out)@ == old(out)@ + senc_string(s@),
{
    let bytes = s.as_bytes_vec();
    push_bytes(out, &bytes);
}

// ---------------------------------------------------------------------------
// Splitting a concatenation: the workhorse for showing that each field of an
// encoded value sits at its own position.
// ---------------------------------------------------------------------------

pub proof fn lemma_concat_parts(x: Seq<u8>, y: Seq<u8>, b: Seq<u8>, pos: int)
    requires
        0 <= pos,
        pos + x.len() + y.len() <= b.len(),
        b.subrange(pos, pos + x.len() + y.len()) == x + y,
    ensures
        b.subrange(pos, pos + x.len()) == x,
        b.subrange(pos + x.len(), pos + x.len() + y.len()) == y,
{
    let whole = b.subrange(pos, pos + x.len() + y.len());
    assert(b.subrange(pos, pos + x.len()) =~= x) by {
        assert forall|i: int| 0 <= i < x.len() implies b.subrange(pos, pos + x.len() as int)[i]
            == x[i] by {
            assert(b[pos + i] == whole[i]);
            assert(whole[i] == (x + y)[i]);
        }
    }
    assert(b.subrange(pos + x.len(), pos + x.len() + y.len()) =~= y) by {
        assert forall|i: int| 0 <= i < y.len() implies b.subrange(
            pos + x.len(),
            pos + x.len() + y.len(),
        )[i] == y[i] by {
            assert(b[pos + x.len() + i] == whole[x.len() + i]);
            assert(whole[x.len() + i] == (x + y)[x.len() + i]);
        }
    }
}

// ---------------------------------------------------------------------------
// File types and metadata snapshots
// ---------------------------------------------------------------------------

/// The wire tag of a directory-entry kind.
pub open spec fn ft_tag(t: FileType) -> u8 {
    match t {
        FileType::File => 0,
        FileType::Directory => 1,
        FileType::Symlink => 2,
        FileType::Other => 3,
    }
}

/// The directory-entry kind carried by a wire tag at most 3.
pub open spec fn ft_of_tag(t: u8) -> FileType {
    if t == 0 {
        FileType::File
    } else if t == 1 {
        FileType::Directory
    } else if t == 2 {
        FileType::Symlink
    } else {
        FileType::Other
    }
}

pub open spec fn sdec_file_type(b: Seq<u8>, pos: int) -> Option<(FileType, int)> {
    match sdec_u8(b, pos) {
        Some((t, p)) => if t <= 3 {
            Some((ft_of_tag(t), p))
        } else {
            None
        },
        None => None,
    }
}

/// The wire form of a metadata snapshot: size, mode, the two timestamps and
/// a directory flag, all fixed-width.
pub open spec fn senc_stat(st: FileStat) -> Seq<u8> {
    be64(st.size) + be32(st.mode) + be64(st.modified_time) + be64(st.access_time) + seq![
        if st.is_dir {
            1u8
        } else {
            0u8
        },
    ]
}

/// Decodes a whole buffer as a metadata snapshot; trailing bytes are refused.
pub open spec fn sdec_stat(b: Seq<u8>) -> Option<FileStat> {
    match sdec_u64(b, 0) {
        Some((size, p1)) => match sdec_u32(b, p1) {
            Some((mode, p2)) => match sdec_u64(b, p2) {
                Some((modified_time, p3)) => match sdec_u64(b, p3) {
                    Some((access_time, p4)) => match sdec_u8(b, p4) {
                        Some((d, p5)) => if d <= 1 && p5 == b.len() {
                            Some(
                                FileStat {
                                    size,
                                    mode,
                                    modified_time,
                                    access_time,
                                    is_dir: d == 1,
                                },
                            )
                        } else {
                            None
                        },
                        None => None,
                    },
                    None => None,
                },
                None => None,
            },
            None => None,
        },
        None => None,
    }
}

/// A metadata snapshot decodes back to itself.
pub proof fn lemma_stat_round_trip(st: FileStat)
    ensures
        sdec_stat(senc_stat(st)) == Some(st),
{
    let b = senc_stat(st);
    let c1 = be64(st.size);
    let c2 = be32(st.mode);
    let c3 = be64(st.modified_time);
    let c4 = be64(st.access_time);
    let c5 = seq![if st.is_dir { 1u8 } else { 0u8 }];
    assert(b.subrange(0, b.len() as int) =~= b);
    lemma_concat_parts(c1 + c2 + c3 + c4, c5, b, 0);
    lemma_concat_parts(c1 + c2 + c3, c4, b, 0);
    lemma_concat_parts(c1 + c2, c3, b, 0);
    lemma_concat_parts(c1, c2, b, 0);
    lemma_sdec_u64_at(b, 0, st.size);
    lemma_sdec_u32_at(b, 8, st.mode);
    lemma_sdec_u64_at(b, 12, st.modified_time);
    lemma_sdec_u64_at(b, 20, st.access_time);
    lemma_sdec_u8_at(b, 28, if st.is_dir { 1u8 } else { 0u8 });
}

// ---------------------------------------------------------------------------
// Directory listings
// ---------------------------------------------------------------------------

/// The wire form of one directory entry: its name, then its kind tag.
pub open spec fn senc_entry(e: DirEntryView) -> Seq<u8> {
    senc_string(e.name) + seq![ft_tag(e.file_type)]
}

pub open spec fn sdec_entry(b: Seq<u8>, pos: int) -> Option<(DirEntryView, int)> {
    match sdec_string(b, pos) {
        Some((name, p1)) => match sdec_file_type(b, p1) {
            Some((t, p2)) => Some((DirEntryView { name, file_type: t }, p2)),
            None => None,
        },
        None => None,
    }
}

/// The wire form of the entries themselves, in listing order.
pub open spec fn senc_entry_seq(es: Seq<DirEntryView>) -> Seq<u8>
    decreases es.len(),
{
    if es.len() == 0 {
        Seq::empty()
    } else {
        senc_entry(es[0]) + senc_entry_seq(es.drop_first())
    }
}

/// The wire form of a whole listing: an entry count, then the entries.
pub open spec fn senc_entries(es: Seq<DirEntryView>) -> Seq<u8> {
    be32(es.len() as u32) + senc_entry_seq(es)
}

/// Decodes `k` consecutive entries starting at `pos`, appending to `acc`.
pub open spec fn sdec_entry_seq(b: Seq<u8>, pos: int, k: nat, acc: Seq<DirEntryView>) -> Option<
    (Seq<DirEntryView>, int),
>
    decreases k,
{
    if k == 0 {
        Some((acc, pos))
    } else {
        match sdec_entry(b, pos) {
            Some((e, p)) => sdec_entry_seq(b, p, (k - 1) as nat, acc.push(e)),
            None => None,
        }
    }
}

/// Decodes a whole buffer as a directory listing; trailing bytes are refused.
pub open spec fn sdec_entries(b: Seq<u8>) -> Option<Seq<DirEntryView>> {
    match sdec_u32(b, 0) {
        Some((n, p)) => match sdec_entry_seq(b, p, n as nat, Seq::empty()) {
            Some((es, p2)) => if p2 == b.len() {
                Some(es)
            } else {
                None
            },
            None => None,
        },
        None => None,
    }
}

/// Encoding a listing one entry longer appends that entry's encoding.
pub proof fn lemma_senc_entry_seq_push(es: Seq<DirEntryView>, e: DirEntryView)
    ensures
        senc_entry_seq(es.push(e)) == senc_entry_seq(es) + senc_entry(e),
    decreases es.len(),
{
    if es.len() == 0 {
        assert(es.push(e)[0] == e);
        assert(es.push(e).drop_first() =~= Seq::<DirEntryView>::empty());
        assert(senc_entry_seq(Seq::<DirEntryView>::empty()) == Seq::<u8>::empty());
        assert(senc_entry_seq(es.push(e)) == senc_entry(e) + Seq::<u8>::empty());
        assert(senc_entry_seq(es.push(e)) =~= senc_entry_seq(es) + senc_entry(e));
    } else {
        assert(es.push(e)[0] == es[0]);
        assert(es.push(e).drop_first() =~= es.drop_first().push(e));
        lemma_senc_entry_seq_push(es.drop_first(), e);
        assert(senc_entry_seq(es.push(e)) == senc_entry(es[0]) + (senc_entry_seq(es.drop_first())
            + senc_entry(e)));
        assert(senc_entry(es[0]) + (senc_entry_seq(es.drop_first()) + senc_entry(e)) =~= (senc_entry(
            es[0],
        ) + senc_entry_seq(es.drop_first())) + senc_entry(e));
    }
}

/// Entry-sequence encodings concatenate.
pub proof fn lemma_senc_entry_seq_concat(a: Seq<DirEntryView>, c: Seq<DirEntryView>)
    ensures
        senc_entry_seq(a + c) == senc_entry_seq(a) + senc_entry_seq(c),
    decreases a.len(),
{
    if a.len() == 0 {
        assert(a + c =~= c);
        assert(senc_entry_seq(a) + senc_entry_seq(c) =~= senc_entry_seq(c));
    } else {
        assert((a + c)[0] == a[0]);
        assert((a + c).drop_first() =~= a.drop_first() + c);
        lemma_senc_entry_seq_concat(a.drop_first(), c);
        assert(senc_entry(a[0]) + (senc_entry_seq(a.drop_first()) + senc_entry_seq(c)) =~= (
        senc_entry(a[0]) + senc_entry_seq(a.drop_first())) + senc_entry_seq(c));
    }
}

/// True when every entry name's UTF-8 form fits its length prefix.
pub open spec fn entry_names_fit(es: Seq<DirEntryView>) -> bool {
    forall|i: int| 0 <= i < es.len() ==> len_fits(encode_utf8(#[trigger] es[i].name).len())
}

/// A run of encoded entries at a position decodes to exactly those entries.
pub proof fn lemma_sdec_entry_seq_at(
    b: Seq<u8>,
    pos: int,
    es: Seq<DirEntryView>,
    acc: Seq<DirEntryView>,
)
    requires
        0 <= pos,
        entry_names_fit(es),
        pos + senc_entry_seq(es).len() <= b.len(),
        b.subrange(pos, pos + senc_entry_seq(es).len()) == senc_entry_seq(es),
    ensures
        sdec_entry_seq(b, pos, es.len(), acc) == Some((acc + es, pos + senc_entry_seq(es).len())),
    decreases es.len(),
{
    if es.len() == 0 {
        assert(acc + es =~= acc);
    } else {
        let e0 = es[0];
        let rest = es.drop_first();
        let enc0 = senc_entry(e0);
        let encr = senc_entry_seq(rest);
        lemma_concat_parts(enc0, encr, b, pos);
        // the first entry: its name, then its kind tag
        let sname = senc_string(e0.name);
        let stag = seq![ft_tag(e0.file_type)];
        lemma_concat_parts(sname, stag, b, pos);
        assert(len_fits(encode_utf8(e0.name).len()));
        lemma_sdec_string_at(b, pos, e0.name);
        lemma_sdec_u8_at(b, pos + sname.len(), ft_tag(e0.file_type));
        assert(ft_tag(e0.file_type) <= 3);
        assert(ft_of_tag(ft_tag(e0.file_type)) == e0.file_type);
        assert(sdec_entry(b, pos) == Some((e0, pos + enc0.len())));
        assert(entry_names_fit(rest)) by {
            assert(forall|i: int| 0 <= i < rest.len() ==> rest[i] == es[i + 1]);
        }
        lemma_sdec_entry_seq_at(b, pos + enc0.len(), rest, acc.push(e0));
        assert(acc.push(e0) + rest =~= acc + es);
    }
}

/// A directory listing decodes back to itself.
pub proof fn lemma_entries_round_trip(es: Seq<DirEntryView>)
    requires
        len_fits(es.len()),
        entry_names_fit(es),
    ensures
        sdec_entries(senc_entries(es)) == Some(es),
{
    let b = senc_entries(es);
    assert(b.subrange(0, b.len() as int) =~= b);
    lemma_concat_parts(be32(es.len() as u32), senc_entry_seq(es), b, 0);
    lemma_sdec_u32_at(b, 0, es.len() as u32);
    lemma_sdec_entry_seq_at(b, 4, es, Seq::empty());
    assert(Seq::empty() + es =~= es);
}

// ---------------------------------------------------------------------------
// Operations
// ---------------------------------------------------------------------------

/// The wire tag of an operation variant.
pub open spec fn op_tag(op: OperationView) -> u8 {
    match op {
        OperationView::Read { .. } => 0,
        OperationView::Write { .. } => 1,
        OperationView::Create { .. } => 2,
        OperationView::Mkdir { .. } => 3,
        OperationView::Remove { .. } => 4,
        OperationView::Stat { .. } => 5,
        OperationView::Readdir { .. } => 6,
        OperationView::Rename { .. } => 7,
        OperationView::Symlink { .. } => 8,
        OperationView::Fsync { .. } => 9,
    }
}

/// The wire form of an operation: its tag, then its fields in order.
pub open spec fn senc_operation(op: OperationView) -> Seq<u8> {
    match op {
        OperationView::Read { path, offset, length } => seq![0u8] + senc_string(path) + be64(offset)
            + be64(length),
        OperationView::Write { path, offset, data } => seq![1u8] + senc_string(path) + be64(offset)
            + senc_bytes(data),
        OperationView::Create { path, mode } => seq![2u8] + senc_string(path) + be32(mode),
        OperationView::Mkdir { path, mode } => seq![3u8] + senc_string(path) + be32(mode),
        OperationView::Remove { path } => seq![4u8] + senc_string(path),
        OperationView::Stat { path } => seq![5u8] + senc_string(path),
        OperationView::Readdir { path } => seq![6u8] + senc_string(path),
        OperationView::Rename { from, to } => seq![7u8] + senc_string(from) + senc_string(to),
        OperationView::Symlink { target, link } => seq![8u8] + senc_string(target) + senc_string(
            link,
        ),
        OperationView::Fsync { path } => seq![9u8] + senc_string(path),
    }
}

/// Decodes a whole buffer as an operation; an out-of-range tag, a malformed
/// field or trailing bytes are refused.
pub open spec fn sdec_operation(b: Seq<u8>) -> Option<OperationView> {
    match sdec_u8(b, 0) {
        None => None,
        Some((tag, p0)) => if tag == 0 {
            match sdec_string(b, p0) {
                Some((path, p1)) => match sdec_u64(b, p1) {
                    Some((offset, p2)) => match sdec_u64(b, p2) {
                        Some((length, p3)) => if p3 == b.len() {
                            Some(OperationView::Read { path, offset, length })
                        } else {
                            None
                        },
                        None => None,
                    },
                    None => None,
                },
                None => None,
            }
        } else if tag == 1 {
            match sdec_string(b, p0) {
                Some((path, p1)) => match sdec_u64(b, p1) {
                    Some((offset, p2)) => match sdec_bytes(b, p2) {
                        Some((data, p3)) => if p3 == b.len() {
                            Some(OperationView::Write { path, offset, data })
                        } else {
                            None
                        },
                        None => None,
                    },
                    None => None,
                },
                None => None,
            }
        } else if tag == 2 {
            match sdec_string(b, p0) {
                Some((path, p1)) => match sdec_u32(b, p1) {
                    Some((mode, p2)) => if p2 == b.len() {
                        Some(OperationView::Create { path, mode })
                    } else {
                        None
                    },
                    None => None,
                },
                None => None,
            }
        } else if tag == 3 {
            match sdec_string(b, p0) {
                Some((path, p1)) => match sdec_u32(b, p1) {
                    Some((mode, p2)) => if p2 == b.len() {
                        Some(OperationView::Mkdir { path, mode })
                    } else {
                        None
                    },
                    None => None,
                },
                None => None,
            }
        } else if tag == 4 {
            match sdec_string(b, p0) {
                Some((path, p1)) => if p1 == b.len() {
                    Some(OperationView::Remove { path })
                } else {
                    None
                },
                None => None,
            }
        } else if tag == 5 {
            match sdec_string(b, p0) {
                Some((path, p1)) => if p1 == b.len() {
                    Some(OperationView::Stat { path })
                } else {
                    None
                },
                None => None,
            }
        } else if tag == 6 {
            match sdec_string(b, p0) {
                Some((path, p1)) => if p1 == b.len() {
                    Some(OperationView::Readdir { path })
                } else {
                    None
                },
                None => None,
            }
        } else if tag == 7 {
            match sdec_string(b, p0) {
                Some((from, p1)) => match sdec_string(b, p1) {
                    Some((to, p2)) => if p2 == b.len() {
                        Some(OperationView::Rename { from, to })
                    } else {
                        None
                    },
                    None => None,
                },
                None => None,
            }
        } else if tag == 8 {
            match sdec_string(b, p0) {
                Some((target, p1)) => match sdec_string(b, p1) {
                    Some((link, p2)) => if p2 == b.len() {
                        Some(OperationView::Symlink { target, link })
                    } else {
                        None
                    },
                    None => None,
                },
                None => None,
            }
        } else if tag == 9 {
            match sdec_string(b, p0) {
                Some((path, p1)) => if p1 == b.len() {
                    Some(OperationView::Fsync { path })
                } else {
                    None
                },
                None => None,
            }
        } else {
            None
        },
    }
}

/// True when every variable-length field of the operation fits its 32-bit
/// length prefix, so that the operation has a faithful wire form.
pub open spec fn op_encodable(op: OperationView) -> bool {
    match op {
        OperationView::Read { path, .. } => len_fits(encode_utf8(path).len()),
        OperationView::Write { path, data, .. } => len_fits(encode_utf8(path).len()) && len_fits(
            data.len(),
        ),
        OperationView::Create { path, .. } => len_fits(encode_utf8(path).len()),
        OperationView::Mkdir { path, .. } => len_fits(encode_utf8(path).len()),
        OperationView::Remove { path } => len_fits(encode_utf8(path).len()),
        OperationView::Stat { path } => len_fits(encode_utf8(path).len()),
        OperationView::Readdir { path } => len_fits(encode_utf8(path).len()),
        OperationView::Rename { from, to } => len_fits(encode_utf8(from).len()) && len_fits(
            encode_utf8(to).len(),
        ),
        OperationView::Symlink { target, link } => len_fits(encode_utf8(target).len()) && len_fits(
            encode_utf8(link).len(),
        ),
        OperationView::Fsync { path } => len_fits(encode_utf8(path).len()),
    }
}

/// One variant family: tag, then a single string field.
#[verifier::rlimit(100)]
proof fn lemma_op_rt_path_only(op: OperationView, path: Seq<char>)
    requires
        len_fits(encode_utf8(path).len()),
        op == (OperationView::Remove { path }) || op == (OperationView::Stat { path }) || op == (
        OperationView::Readdir { path }) || op == (OperationView::Fsync { path }),
    ensures
        sdec_operation(senc_operation(op)) == Some(op),
{
    let b = senc_operation(op);
    let t = seq![op_tag(op)];
    assert(b == t + senc_string(path));
    assert(b.subrange(0, b.len() as int) =~= b);
    lemma_concat_parts(t, senc_string(path), b, 0);
    lemma_sdec_u8_at(b, 0, op_tag(op));
    lemma_sdec_string_at(b, 1, path);
}

/// One variant family: tag, then a string field and a 32-bit mode.
#[verifier::rlimit(100)]
proof fn lemma_op_rt_path_mode(op: OperationView, path: Seq<char>, mode: u32)
    requires
        len_fits(encode_utf8(path).len()),
        op == (OperationView::Create { path, mode }) || op == (OperationView::Mkdir { path, mode }),
    ensures
        sdec_operation(senc_operation(op)) == Some(op),
{
    let b = senc_operation(op);
    let t = seq![op_tag(op)];
    let s1 = senc_string(path);
    assert(b == t + s1 + be32(mode));
    assert(b.subrange(0, b.len() as int) =~= b);
    lemma_concat_parts(t + s1, be32(mode), b, 0);
    lemma_concat_parts(t, s1, b, 0);
    lemma_sdec_u8_at(b, 0, op_tag(op));
    lemma_sdec_string_at(b, 1, path);
    lemma_sdec_u32_at(b, 1 + s1.len() as int, mode);
}

/// One variant family: tag, then two string fields.
#[verifier::rlimit(100)]
proof fn lemma_op_rt_two_paths(op: OperationView, a: Seq<char>, c: Seq<char>)
    requires
        len_fits(encode_utf8(a).len()),
        len_fits(encode_utf8(c).len()),
        op == (OperationView::Rename { from: a, to: c }) || op == (OperationView::Symlink {
            target: a,
            link: c,
        }),
    ensures
        sdec_operation(senc_operation(op)) == Some(op),
{
    let b = senc_operation(op);
    let t = seq![op_tag(op)];
    let s1 = senc_string(a);
    assert(b == t + s1 + senc_string(c));
    assert(b.subrange(0, b.len() as int) =~= b);
    lemma_concat_parts(t + s1, senc_string(c), b, 0);
    lemma_concat_parts(t, s1, b, 0);
    lemma_sdec_u8_at(b, 0, op_tag(op));
    lemma_sdec_string_at(b, 1, a);
    lemma_sdec_string_at(b, 1 + s1.len() as int, c);
}

#[verifier::rlimit(100)]
proof fn lemma_op_rt_read(path: Seq<char>, offset: u64, length: u64)
    requires
        len_fits(encode_utf8(path).len()),
    ensures
        sdec_operation(senc_operation(OperationView::Read { path, offset, length })) == Some(
            OperationView::Read { path, offset, length },
        ),
{
    let op = OperationView::Read { path, offset, length };
    let b = senc_operation(op);
    let t = seq![0u8];
    let s1 = senc_string(path);
    assert(b == t + s1 + be64(offset) + be64(length));
    assert(b.subrange(0, b.len() as int) =~= b);
    lemma_concat_parts(t + s1 + be64(offset), be64(length), b, 0);
    lemma_concat_parts(t + s1, be64(offset), b, 0);
    lemma_concat_parts(t, s1, b, 0);
    lemma_sdec_u8_at(b, 0, 0u8);
    lemma_sdec_string_at(b, 1, path);
    lemma_sdec_u64_at(b, 1 + s1.len() as int, offset);
    lemma_sdec_u64_at(b, 1 + s1.len() as int + 8, length);
}

#[verifier::rlimit(100)]
proof fn lemma_op_rt_write(path: Seq<char>, offset: u64, data: Seq<u8>)
    requires
        len_fits(encode_utf8(path).len()),
        len_fits(data.len()),
    ensures
        sdec_operation(senc_operation(OperationView::Write { path, offset, data })) == Some(
            OperationView::Write { path, offset, data },
        ),
{
    let op = OperationView::Write { path, offset, data };
    let b = senc_operation(op);
    let t = seq![1u8];
    let s1 = senc_string(path);
    assert(b == t + s1 + be64(offset) + senc_bytes(data));
    assert(b.subrange(0, b.len() as int) =~= b);
    lemma_concat_parts(t + s1 + be64(offset), senc_bytes(data), b, 0);
    lemma_concat_parts(t + s1, be64(offset), b, 0);
    lemma_concat_parts(t, s1, b, 0);
    lemma_sdec_u8_at(b, 0, 1u8);
    lemma_sdec_string_at(b, 1, path);
    lemma_sdec_u64_at(b, 1 + s1.len() as int, offset);
    lemma_sdec_bytes_at(b, 1 + s1.len() as int + 8, data);
}

/// Every encodable operation decodes back to itself.
pub proof fn lemma_operation_round_trip(op: OperationView)
    requires
        op_encodable(op),
    ensures
        sdec_operation(senc_operation(op)) == Some(op),
{
    match op {
        OperationView::Read { path, offset, length } => lemma_op_rt_read(path, offset, length),
        OperationView::Write { path, offset, data } => lemma_op_rt_write(path, offset, data),
        OperationView::Create { path, mode } => lemma_op_rt_path_mode(op, path, mode),
        OperationView::Mkdir { path, mode } => lemma_op_rt_path_mode(op, path, mode),
        OperationView::Remove { path } => lemma_op_rt_path_only(op, path),
        OperationView::Stat { path } => lemma_op_rt_path_only(op, path),
        OperationView::Readdir { path } => lemma_op_rt_path_only(op, path),
        OperationView::Rename { from, to } => lemma_op_rt_two_paths(op, from, to),
        OperationView::Symlink { target, link } => lemma_op_rt_two_paths(op, target, link),
        OperationView::Fsync { path } => lemma_op_rt_path_only(op, path),
    }
}

/// Distinct encodable operations never share a wire form.
pub proof fn lemma_operation_encoding_injective(a: OperationView, c: OperationView)
    requires
        op_encodable(a),
        op_encodable(c),
        senc_operation(a) == senc_operation(c),
    ensures
        a == c,
{
    lemma_operation_round_trip(a);
    lemma_operation_round_trip(c);
}

// ---------------------------------------------------------------------------
// Responses
// ---------------------------------------------------------------------------

/// The wire form of a response: a success payload or an error description.
pub open spec fn senc_response(r: ResponseView) -> Seq<u8> {
    match r {
        ResponseView::Success(data) => seq![0u8] + senc_bytes(data),
        ResponseView::Error(msg) => seq![1u8] + senc_string(msg),
    }
}

/// Decodes a whole buffer as a response; trailing bytes are refused.
pub open spec fn sdec_response(b: Seq<u8>) -> Option<ResponseView> {
    match sdec_u8(b, 0) {
        None => None,
        Some((tag, p0)) => if tag == 0 {
            match sdec_bytes(b, p0) {
                Some((data, p1)) => if p1 == b.len() {
                    Some(ResponseView::Success(data))
                } else {
                    None
                },
                None => None,
            }
        } else if tag == 1 {
            match sdec_string(b, p0) {
                Some((msg, p1)) => if p1 == b.len() {
                    Some(ResponseView::Error(msg))
                } else {
                    None
                },
                None => None,
            }
        } else {
            None
        },
    }
}

/// True when the response's payload or message fits its length prefix.
pub open spec fn resp_encodable(r: ResponseView) -> bool {
    match r {
        ResponseView::Success(data) => len_fits(data.len()),
        ResponseView::Error(msg) => len_fits(encode_utf8(msg).len()),
    }
}

/// Every encodable response decodes back to itself.
pub proof fn lemma_response_round_trip(r: ResponseView)
    requires
        resp_encodable(r),
    ensures
        sdec_response(senc_response(r)) == Some(r),
{
    let b = senc_response(r);
    assert(b.subrange(0, b.len() as int) =~= b);
    match r {
        ResponseView::Success(data) => {
            lemma_concat_parts(seq![0u8], senc_bytes(data), b, 0);
            lemma_sdec_u8_at(b, 0, 0u8);
            lemma_sdec_bytes_at(b, 1, data);
        },
        ResponseView::Error(msg) => {
            lemma_concat_parts(seq![1u8], senc_string(msg), b, 0);
            lemma_sdec_u8_at(b, 0, 1u8);
            lemma_sdec_string_at(b, 1, msg);
        },
    }
}

// ---------------------------------------------------------------------------
// Soundness: whatever a decoder accepts re-encodes to exactly the bytes it
// consumed. A decoder never invents a value the encoder could not have
// produced, and never leaves part of the buffer unaccounted for.
// ---------------------------------------------------------------------------

pub proof fn lemma_be32_of_bytes(b: Seq<u8>, pos: int)
    requires
        0 <= pos,
        pos + 4 <= b.len(),
    ensures
        be32(from_be32(b, pos)) == b.subrange(pos, pos + 4),
{
    let b0 = b[pos];
    let b1 = b[pos + 1];
    let b2 = b[pos + 2];
    let b3 = b[pos + 3];
    let x = ((b0 as u32) << 24) | ((b1 as u32) << 16) | ((b2 as u32) << 8) | (b3 as u32);
    assert(((x >> 24) as u8) == b0 && ((x >> 16) as u8) == b1 && ((x >> 8) as u8) == b2 && (
    x as u8) == b3) by (bit_vector)
        requires
            x == ((b0 as u32) << 24) | ((b1 as u32) << 16) | ((b2 as u32) << 8) | (b3 as u32),
    ;
    assert(be32(from_be32(b, pos)) =~= b.subrange(pos, pos + 4));
}

pub proof fn lemma_be64_of_bytes(b: Seq<u8>, pos: int)
    requires
        0 <= pos,
        pos + 8 <= b.len(),
    ensures
        be64(from_be64(b, pos)) == b.subrange(pos, pos + 8),
{
    let b0 = b[pos];
    let b1 = b[pos + 1];
    let b2 = b[pos + 2];
    let b3 = b[pos + 3];
    let b4 = b[pos + 4];
    let b5 = b[pos + 5];
    let b6 = b[pos + 6];
    let b7 = b[pos + 7];
    let x = ((b0 as u64) << 56) | ((b1 as u64) << 48) | ((b2 as u64) << 40) | ((b3 as u64) << 32)
        | ((b4 as u64) << 24) | ((b5 as u64) << 16) | ((b6 as u64) << 8) | (b7 as u64);
    assert(((x >> 56) as u8) == b0 && ((x >> 48) as u8) == b1 && ((x >> 40) as u8) == b2 && ((x
        >> 32) as u8) == b3 && ((x >> 24) as u8) == b4 && ((x >> 16) as u8) == b5 && ((x
        >> 8) as u8) == b6 && (x as u8) == b7) by (bit_vector)
        requires
            x == ((b0 as u64) << 56) | ((b1 as u64) << 48) | ((b2 as u64) << 40) | ((
            b3 as u64) << 32) | ((b4 as u64) << 24) | ((b5 as u64) << 16) | ((b6 as u64) << 8) | (
            b7 as u64),
    ;
    assert(be64(from_be64(b, pos)) =~= b.subrange(pos, pos + 8));
}

pub proof fn lemma_sdec_bytes_sound(b: Seq<u8>, pos: int, d: Seq<u8>, p: int)
    requires
        sdec_bytes(b, pos) == Some((d, p)),
    ensures
        0 <= pos <= p <= b.len(),
        p == pos + senc_bytes(d).len(),
        len_fits(d.len()),
        b.subrange(pos, p) == senc_bytes(d),
{
    let n = from_be32(b, pos);
    lemma_be32_of_bytes(b, pos);
    assert(d.len() == n);
    assert(be32(d.len() as u32) == be32(n));
    assert(b.subrange(pos, p) =~= senc_bytes(d)) by {
        assert forall|i: int| 0 <= i < 4 + n implies b.subrange(pos, p)[i] == senc_bytes(d)[i] by {
            if i < 4 {
                assert(b.subrange(pos, pos + 4)[i] == be32(n)[i]);
            } else {
                assert(d[i - 4] == b[pos + i]);
            }
        }
    }
}

pub proof fn lemma_sdec_string_sound(b: Seq<u8>, pos: int, s: Seq<char>, p: int)
    requires
        sdec_string(b, pos) == Some((s, p)),
    ensures
        0 <= pos <= p <= b.len(),
        p == pos + senc_string(s).len(),
        len_fits(encode_utf8(s).len()),
        b.subrange(pos, p) == senc_string(s),
{
    let bs = sdec_bytes(b, pos)->Some_0.0;
    lemma_sdec_bytes_sound(b, pos, bs, p);
    broadcast use decode_utf8_encode_utf8;

    assert(encode_utf8(decode_utf8(bs)) == bs);
}

#[verifier::rlimit(100)]
proof fn lemma_op_sound_path_only(b: Seq<u8>, v: OperationView)
    requires
        sdec_operation(b) == Some(v),
        b.len() >= 1,
        b[0] == 4 || b[0] == 5 || b[0] == 6 || b[0] == 9,
    ensures
        senc_operation(v) == b,
        op_encodable(v),
{
    let (path, p1) = sdec_string(b, 1)->Some_0;
    lemma_sdec_string_sound(b, 1, path, p1);
    assert(senc_operation(v) =~= b) by {
        assert forall|i: int| 0 <= i < b.len() implies senc_operation(v)[i] == b[i] by {
            if i >= 1 {
                assert(b.subrange(1, p1)[i - 1] == b[i]);
            }
        }
    }
}

#[verifier::rlimit(100)]
proof fn lemma_op_sound_path_mode(b: Seq<u8>, v: OperationView)
    requires
        sdec_operation(b) == Some(v),
        b.len() >= 1,
        b[0] == 2 || b[0] == 3,
    ensures
        senc_operation(v) == b,
        op_encodable(v),
{
    let (path, p1) = sdec_string(b, 1)->Some_0;
    lemma_sdec_string_sound(b, 1, path, p1);
    lemma_be32_of_bytes(b, p1);
    assert(senc_operation(v) =~= b) by {
        assert forall|i: int| 0 <= i < b.len() implies senc_operation(v)[i] == b[i] by {
            if 1 <= i < p1 {
                assert(b.subrange(1, p1)[i - 1] == b[i]);
            } else if i >= p1 {
                assert(b.subrange(p1, p1 + 4)[i - p1] == b[i]);
            }
        }
    }
}

#[verifier::rlimit(100)]
proof fn lemma_op_sound_two_paths(b: Seq<u8>, v: OperationView)
    requires
        sdec_operation(b) == Some(v),
        b.len() >= 1,
        b[0] == 7 || b[0] == 8,
    ensures
        senc_operation(v) == b,
        op_encodable(v),
{
    let (first, p1) = sdec_string(b, 1)->Some_0;
    let (second, p2) = sdec_string(b, p1)->Some_0;
    lemma_sdec_string_sound(b, 1, first, p1);
    lemma_sdec_string_sound(b, p1, second, p2);
    assert(senc_operation(v) =~= b) by {
        assert forall|i: int| 0 <= i < b.len() implies senc_operation(v)[i] == b[i] by {
            if 1 <= i < p1 {
                assert(b.subrange(1, p1)[i - 1] == b[i]);
            } else if i >= p1 {
                assert(b.subrange(p1, p2)[i - p1] == b[i]);
            }
        }
    }
}

#[verifier::rlimit(100)]
proof fn lemma_op_sound_read(b: Seq<u8>, v: OperationView)
    requires
        sdec_operation(b) == Some(v),
        b.len() >= 1,
        b[0] == 0,
    ensures
        senc_operation(v) == b,
        op_encodable(v),
{
    let (path, p1) = sdec_string(b, 1)->Some_0;
    lemma_sdec_string_sound(b, 1, path, p1);
    lemma_be64_of_bytes(b, p1);
    lemma_be64_of_bytes(b, p1 + 8);
    assert(senc_operation(v) =~= b) by {
        assert forall|i: int| 0 <= i < b.len() implies senc_operation(v)[i] == b[i] by {
            if 1 <= i < p1 {
                assert(b.subrange(1, p1)[i - 1] == b[i]);
            } else if p1 <= i < p1 + 8 {
                assert(b.subrange(p1, p1 + 8)[i - p1] == b[i]);
            } else if i >= p1 + 8 {
                assert(b.subrange(p1 + 8, p1 + 16)[i - (p1 + 8)] == b[i]);
            }
        }
    }
}

#[verifier::rlimit(100)]
proof fn lemma_op_sound_write(b: Seq<u8>, v: OperationView)
    requires
        sdec_operation(b) == Some(v),
        b.len() >= 1,
        b[0] == 1,
    ensures
        senc_operation(v) == b,
        op_encodable(v),
{
    let (path, p1) = sdec_string(b, 1)->Some_0;
    let (data, p3) = sdec_bytes(b, p1 + 8)->Some_0;
    lemma_sdec_string_sound(b, 1, path, p1);
    lemma_be64_of_bytes(b, p1);
    lemma_sdec_bytes_sound(b, p1 + 8, data, p3);
    assert(senc_operation(v) =~= b) by {
        assert forall|i: int| 0 <= i < b.len() implies senc_operation(v)[i] == b[i] by {
            if 1 <= i < p1 {
                assert(b.subrange(1, p1)[i - 1] == b[i]);
            } else if p1 <= i < p1 + 8 {
                assert(b.subrange(p1, p1 + 8)[i - p1] == b[i]);
            } else if i >= p1 + 8 {
                assert(b.subrange(p1 + 8, p3)[i - (p1 + 8)] == b[i]);
            }
        }
    }
}

/// Whatever decodes as an operation is exactly the encoding of that
/// operation: a decoder accepts no spelling of an operation but the one
/// the encoder produces.
pub proof fn lemma_operation_decode_sound(b: Seq<u8>, v: OperationView)
    requires
        sdec_operation(b) == Some(v),
    ensures
        senc_operation(v) == b,
        op_encodable(v),
{
    let tag = b[0];
    if tag == 0 {
        lemma_op_sound_read(b, v);
    } else if tag == 1 {
        lemma_op_sound_write(b, v);
    } else if tag == 2 || tag == 3 {
        lemma_op_sound_path_mode(b, v);
    } else if tag == 7 || tag == 8 {
        lemma_op_sound_two_paths(b, v);
    } else {
        lemma_op_sound_path_only(b, v);
    }
}

proof fn lemma_sdec_entry_sound(b: Seq<u8>, pos: int, e: DirEntryView, p: int)
    requires
        sdec_entry(b, pos) == Some((e, p)),
    ensures
        0 <= pos <= p <= b.len(),
        p == pos + senc_entry(e).len(),
        len_fits(encode_utf8(e.name).len()),
        b.subrange(pos, p) == senc_entry(e),
{
    let (name, p1) = sdec_string(b, pos)->Some_0;
    lemma_sdec_string_sound(b, pos, name, p1);
    let t = b[p1];
    assert(t <= 3);
    assert(ft_tag(ft_of_tag(t)) == t);
    assert(b.subrange(pos, p) =~= senc_entry(e)) by {
        assert forall|i: int| 0 <= i < p - pos implies b.subrange(pos, p)[i] == senc_entry(e)[i] by {
            if i < p1 - pos {
                assert(b.subrange(pos, p1)[i] == b[pos + i]);
            }
        }
    }
}

proof fn lemma_sdec_entry_seq_sound(
    b: Seq<u8>,
    pos: int,
    k: nat,
    acc: Seq<DirEntryView>,
    out: Seq<DirEntryView>,
    p: int,
)
    requires
        0 <= pos <= b.len(),
        sdec_entry_seq(b, pos, k, acc) == Some((out, p)),
    ensures
        out.len() == acc.len() + k,
        out.take(acc.len() as int) == acc,
        pos <= p <= b.len(),
        entry_names_fit(out.skip(acc.len() as int)),
        p == pos + senc_entry_seq(out.skip(acc.len() as int)).len(),
        b.subrange(pos, p) == senc_entry_seq(out.skip(acc.len() as int)),
    decreases k,
{
    if k == 0 {
        assert(out == acc);
        assert(out.take(acc.len() as int) =~= acc);
        assert(out.skip(acc.len() as int) =~= Seq::<DirEntryView>::empty());
        assert(senc_entry_seq(Seq::<DirEntryView>::empty()) == Seq::<u8>::empty());
        assert(b.subrange(pos, p) =~= Seq::<u8>::empty());
    } else {
        let (e, p0) = sdec_entry(b, pos)->Some_0;
        lemma_sdec_entry_sound(b, pos, e, p0);
        lemma_sdec_entry_seq_sound(b, p0, (k - 1) as nat, acc.push(e), out, p);
        let rest_after = out.skip(acc.len() as int + 1);
        let rest = out.skip(acc.len() as int);
        assert(out.take(acc.len() as int) =~= acc) by {
            assert(forall|i: int|
                0 <= i < acc.len() ==> out.take(acc.len() as int + 1)[i] == acc.push(e)[i]);
        }
        assert(out[acc.len() as int] == acc.push(e)[acc.len() as int]);
        assert(rest[0] == e);
        assert(rest.drop_first() =~= rest_after);
        assert(senc_entry_seq(rest) == senc_entry(e) + senc_entry_seq(rest_after));
        assert(entry_names_fit(rest)) by {
            assert(forall|i: int| 1 <= i < rest.len() ==> rest[i] == rest_after[i - 1]);
        }
        assert(b.subrange(pos, p) =~= senc_entry_seq(rest)) by {
            assert forall|i: int| 0 <= i < p - pos implies b.subrange(pos, p)[i] == senc_entry_seq(
                rest,
            )[i] by {
                if i < p0 - pos {
                    assert(b.subrange(pos, p0)[i] == b[pos + i]);
                } else {
                    assert(b.subrange(p0, p)[i - (p0 - pos)] == b[pos + i]);
                }
            }
        }
    }
}

/// Whatever decodes as a directory listing is exactly its encoding.
pub proof fn lemma_entries_decode_sound(b: Seq<u8>, es: Seq<DirEntryView>)
    requires
        sdec_entries(b) == Some(es),
    ensures
        senc_entries(es) == b,
        len_fits(es.len()),
        entry_names_fit(es),
{
    let n = from_be32(b, 0);
    lemma_be32_of_bytes(b, 0);
    lemma_sdec_entry_seq_sound(b, 4, n as nat, Seq::empty(), es, b.len() as int);
    assert(es.skip(0) =~= es);
    assert(es.len() == n);
    assert(be32(es.len() as u32) == be32(n));
    assert(senc_entries(es) =~= b) by {
        assert forall|i: int| 0 <= i < b.len() implies senc_entries(es)[i] == b[i] by {
            if i < 4 {
                assert(b.subrange(0, 4)[i] == b[i]);
            } else {
                assert(b.subrange(4, b.len() as int)[i - 4] == b[i]);
            }
        }
    }
}

/// Whatever decodes as a metadata snapshot is exactly its encoding.
pub proof fn lemma_stat_decode_sound(b: Seq<u8>, st: FileStat)
    requires
        sdec_stat(b) == Some(st),
    ensures
        senc_stat(st) == b,
{
    lemma_be64_of_bytes(b, 0);
    lemma_be32_of_bytes(b, 8);
    lemma_be64_of_bytes(b, 12);
    lemma_be64_of_bytes(b, 20);
    let d = b[28];
    assert(d <= 1);
    assert((if st.is_dir { 1u8 } else { 0u8 }) == d);
    assert(senc_stat(st) =~= b) by {
        assert forall|i: int| 0 <= i < 29 implies senc_stat(st)[i] == b[i] by {
            if i < 8 {
                assert(b.subrange(0, 8)[i] == b[i]);
            } else if i < 12 {
                assert(b.subrange(8, 12)[i - 8] == b[i]);
            } else if i < 20 {
                assert(b.subrange(12, 20)[i - 12] == b[i]);
            } else if i < 28 {
                assert(b.subrange(20, 28)[i - 20] == b[i]);
            }
        }
    }
}

/// Whatever decodes as a response is exactly the encoding of that response.
pub proof fn lemma_response_decode_sound(b: Seq<u8>, v: ResponseView)
    requires
        sdec_response(b) == Some(v),
    ensures
        senc_response(v) == b,
        resp_encodable(v),
{
    let tag = b[0];
    if tag == 0 {
        let (d, p1) = sdec_bytes(b, 1)->Some_0;
        lemma_sdec_bytes_sound(b, 1, d, p1);
        assert(senc_response(v) =~= b) by {
            assert(b.subrange(1, p1) == senc_bytes(d));
            assert forall|i: int| 0 <= i < b.len() implies senc_response(v)[i] == b[i] by {
                if i >= 1 {
                    assert(b.subrange(1, p1)[i - 1] == b[i]);
                }
            }
        }
    } else {
        let (msg, p1) = sdec_string(b, 1)->Some_0;
        lemma_sdec_string_sound(b, 1, msg, p1);
        assert(senc_response(v) =~= b) by {
            assert(b.subrange(1, p1) == senc_string(msg));
            assert forall|i: int| 0 <= i < b.len() implies senc_response(v)[i] == b[i] by {
                if i >= 1 {
                    assert(b.subrange(1, p1)[i - 1] == b[i]);
                }
            }
        }
    }
}

/// Distinct encodable responses never share a wire form.
pub proof fn lemma_response_encoding_injective(a: ResponseView, c: ResponseView)
    requires
        resp_encodable(a),
        resp_encodable(c),
        senc_response(a) == senc_response(c),
    ensures
        a == c,
{
    lemma_response_round_trip(a);
    lemma_response_round_trip(c);
}

// ---------------------------------------------------------------------------
// Executable decoders for the primitives
// ---------------------------------------------------------------------------

/// Relies on `String::from_utf8`: it succeeds exactly on valid UTF-8 input
/// and then returns the string whose byte encoding is that input.
#[verifier::external_body]
fn string_from_utf8(v: Vec<u8>) -> (r: Option<String>)
    ensures
        match r {
            Some(s) => valid_utf8(v@) && encode_utf8(s@) == v@,
            None => !valid_utf8(v@),
        },
{
    String::from_utf8(v).ok()
}

pub fn dec_u8(buf: &Vec<u8>, pos: usize) -> (r: Option<(u8, usize)>)
    ensures
        match r {
            Some((x, n)) => sdec_u8(buf@, pos as int) == Some((x, n as int)),
            None => sdec_u8(buf@, pos as int) is None,
        },
{
    if pos < buf.len() {
        Some((buf[pos], pos + 1))
    } else {
        None
    }
}

pub fn dec_u32(buf: &Vec<u8>, pos: usize) -> (r: Option<(u32, usize)>)
    ensures
        match r {
            Some((x, n)) => sdec_u32(buf@, pos as int) == Some((x, n as int)),
            None => sdec_u32(buf@, pos as int) is None,
        },
{
    if pos < buf.len() && buf.len() - pos >= 4 {
        let x = ((buf[pos] as u32) << 24) | ((buf[pos + 1] as u32) << 16) | ((buf[pos
            + 2] as u32) << 8) | (buf[pos + 3] as u32);
        Some((x, pos + 4))
    } else {
        None
    }
}

pub fn dec_u64(buf: &Vec<u8>, pos: usize) -> (r: Option<(u64, usize)>)
    ensures
        match r {
            Some((x, n)) => sdec_u64(buf@, pos as int) == Some((x, n as int)),
            None => sdec_u64(buf@, pos as int) is None,
        },
{
    if pos < buf.len() && buf.len() - pos >= 8 {
        let x = ((buf[pos] as u64) << 56) | ((buf[pos + 1] as u64) << 48) | ((buf[pos
            + 2] as u64) << 40) | ((buf[pos + 3] as u64) << 32) | ((buf[pos + 4] as u64) << 24) | ((
        buf[pos + 5] as u64) << 16) | ((buf[pos + 6] as u64) << 8) | (buf[pos + 7] as u64);
        Some((x, pos + 8))
    } else {
        None
    }
}

pub fn dec_bytes(buf: &Vec<u8>, pos: usize) -> (r: Option<(Vec<u8>, usize)>)
    ensures
        match r {
            Some((v, n)) => sdec_bytes(buf@, pos as int) == Some((v@, n as int)),
            None => sdec_bytes(buf@, pos as int) is None,
        },
{
    match dec_u32(buf, pos) {
        Some((len, p)) => {
            let len_us = len as usize;
            if len_us <= buf.len() - p {
                let mut v: Vec<u8> = Vec::new();
                let mut i: usize = 0;
                while i < len_us
                    invariant
                        p + len_us <= buf.len(),
                        i <= len_us,
                        v@ == buf@.subrange(p as int, p + i as int),
                    decreases len_us - i,
                {
                    v.push(buf[p + i]);
                    assert(v@ =~= buf@.subrange(p as int, p + (i + 1) as int));
                    i = i + 1;
                }
                Some((v, p + len_us))
            } else {
                None
            }
        },
        None => None,
    }
}

pub fn dec_string(buf: &Vec<u8>, pos: usize) -> (r: Option<(String, usize)>)
    ensures
        match r {
            Some((s, n)) => sdec_string(buf@, pos as int) == Some((s@, n as int)),
            None => sdec_string(buf@, pos as int) is None,
        },
{
    match dec_bytes(buf, pos) {
        Some((bs, n)) => {
            let ghost bytes = bs@;
            match string_from_utf8(bs) {
                Some(s) => {
                    proof {
                        broadcast use encode_utf8_decode_utf8;

                        assert(decode_utf8(encode_utf8(s@)) == s@);
                    }
                    Some((s, n))
                },
                None => None,
            }
        },
        None => None,
    }
}

// ---------------------------------------------------------------------------
// Executable codec for metadata snapshots
// ---------------------------------------------------------------------------

pub fn encode_stat(st: &FileStat) -> (r: Vec<u8>)
    ensures
        r@ == senc_stat(*st),
{
    let mut out: Vec<u8> = Vec::new();
    push_u64(&mut out, st.size);
    push_u32(&mut out, st.mode);
    push_u64(&mut out, st.modified_time);
    push_u64(&mut out, st.access_time);
    out.push(if st.is_dir {
        1u8
    } else {
        0u8
    });
    assert(out@ =~= senc_stat(*st));
    out
}

pub fn decode_stat(buf: &Vec<u8>) -> (r: Option<FileStat>)
    ensures
        r == sdec_stat(buf@),
{
    match dec_u64(buf, 0) {
        Some((size, p1)) => match dec_u32(buf, p1) {
            Some((mode, p2)) => match dec_u64(buf, p2) {
                Some((modified_time, p3)) => match dec_u64(buf, p3) {
                    Some((access_time, p4)) => match dec_u8(buf, p4) {
                        Some((d, p5)) => if d <= 1 && p5 == buf.len() {
                            Some(
                                FileStat {
                                    size,
                                    mode,
                                    modified_time,
                                    access_time,
                                    is_dir: d == 1,
                                },
                            )
                        } else {
                            None
                        },
                        None => None,
                    },
                    None => None,
                },
                None => None,
            },
            None => None,
        },
        None => None,
    }
}

// ---------------------------------------------------------------------------
// Executable codec for directory listings
// ---------------------------------------------------------------------------

/// The views of a sequence of directory entries, in order.
pub open spec fn entry_views(es: Seq<DirEntry>) -> Seq<DirEntryView> {
    Seq::new(es.len(), |i: int| es[i]@)
}

pub fn file_type_tag(t: FileType) -> (r: u8)
    ensures
        r == ft_tag(t),
{
    match t {
        FileType::File => 0,
        FileType::Directory => 1,
        FileType::Symlink => 2,
        FileType::Other => 3,
    }
}

pub fn file_type_of_tag(t: u8) -> (r: FileType)
    requires
        t <= 3,
    ensures
        r == ft_of_tag(t),
{
    if t == 0 {
        FileType::File
    } else if t == 1 {
        FileType::Directory
    } else if t == 2 {
        FileType::Symlink
    } else {
        FileType::Other
    }
}

fn push_entry(out: &mut Vec<u8>, e: &DirEntry)
    requires
        len_fits(encode_utf8(e.name@).len()),
    ensures
        final(out)@ == old(out)@ + senc_entry(e@),
{
    push_string(out, e.name.as_str());
    out.push(file_type_tag(e.file_type));
    assert(out@ =~= old(out)@ + senc_entry(e@));
}

#[verifier::rlimit(60)]
pub fn encode_entries(es: &Vec<DirEntry>) -> (r: Vec<u8>)
    requires
        len_fits(es@.len()),
        entry_names_fit(entry_views(es@)),
    ensures
        r@ == senc_entries(entry_views(es@)),
{
    let mut out: Vec<u8> = Vec::new();
    push_u32(&mut out, es.len() as u32);
    let mut i: usize = 0;
    while i < es.len()
        invariant
            i <= es@.len(),
            len_fits(es@.len()),
            entry_names_fit(entry_views(es@)),
            out@ == be32(es@.len() as u32) + senc_entry_seq(entry_views(es@).take(i as int)),
        decreases es@.len() - i,
    {
        proof {
            assert(entry_views(es@)[i as int].name == es@[i as int]@.name);
            lemma_senc_entry_seq_push(entry_views(es@).take(i as int), entry_views(es@)[i as int]);
            assert(entry_views(es@).take(i as int).push(entry_views(es@)[i as int]) =~= entry_views(
                es@,
            ).take(i + 1));
        }
        push_entry(&mut out, &es[i]);
        i = i + 1;
    }
    proof {
        assert(entry_views(es@).take(es@.len() as int) =~= entry_views(es@));
    }
    out
}

fn dec_entry(buf: &Vec<u8>, pos: usize) -> (r: Option<(DirEntry, usize)>)
    ensures
        match r {
            Some((e, n)) => sdec_entry(buf@, pos as int) == Some((e@, n as int)),
            None => sdec_entry(buf@, pos as int) is None,
        },
{
    match dec_string(buf, pos) {
        Some((name, p1)) => match dec_u8(buf, p1) {
            Some((t, p2)) => if t <= 3 {
                Some((DirEntry { name, file_type: file_type_of_tag(t) }, p2))
            } else {
                None
            },
            None => None,
        },
        None => None,
    }
}

#[verifier::rlimit(60)]
pub fn decode_entries(buf: &Vec<u8>) -> (r: Option<Vec<DirEntry>>)
    ensures
        match r {
            Some(v) => sdec_entries(buf@) == Some(entry_views(v@)),
            None => sdec_entries(buf@) is None,
        },
{
    match dec_u32(buf, 0) {
        Some((count, p0)) => {
            let mut acc: Vec<DirEntry> = Vec::new();
            let mut pos: usize = p0;
            let mut remaining: u32 = count;
            proof {
                assert(entry_views(acc@) =~= Seq::<DirEntryView>::empty());
            }
            while remaining > 0
                invariant
                    pos <= buf@.len(),
                    sdec_u32(buf@, 0) == Some((count, p0 as int)),
                    sdec_entry_seq(buf@, p0 as int, count as nat, Seq::empty())
                        == sdec_entry_seq(buf@, pos as int, remaining as nat, entry_views(acc@)),
                decreases remaining,
            {
                match dec_entry(buf, pos) {
                    Some((e, p)) => {
                        proof {
                            assert(entry_views(acc@).push(e@) =~= entry_views(acc@.push(e)));
                        }
                        acc.push(e);
                        pos = p;
                        remaining = remaining - 1;
                    },
                    None => {
                        return None;
                    },
                }
            }
            if pos == buf.len() {
                Some(acc)
            } else {
                None
            }
        },
        None => None,
    }
}

// ---------------------------------------------------------------------------
// Executable codec for operations
// ---------------------------------------------------------------------------

#[verifier::rlimit(100)]
pub fn encode_operation(op: &NfsOperation) -> (r: Vec<u8>)
    requires
        op_encodable(op@),
    ensures
        r@ == senc_operation(op@),
{
    let mut out: Vec<u8> = Vec::new();
    match op {
        NfsOperation::Read { path, offset, length } => {
            out.push(0u8);
            push_string(&mut out, path.as_str());
            push_u64(&mut out, *offset);
            push_u64(&mut out, *length);
            assert(out@ =~= senc_operation(op@));
        },
        NfsOperation::Write { path, offset, data } => {
            out.push(1u8);
            push_string(&mut out, path.as_str());
            push_u64(&mut out, *offset);
            push_bytes(&mut out, data);
            assert(out@ =~= senc_operation(op@));
        },
        NfsOperation::Create { path, mode } => {
            out.push(2u8);
            push_string(&mut out, path.as_str());
            push_u32(&mut out, *mode);
            assert(out@ =~= senc_operation(op@));
        },
        NfsOperation::Mkdir { path, mode } => {
            out.push(3u8);
            push_string(&mut out, path.as_str());
            push_u32(&mut out, *mode);
            assert(out@ =~= senc_operation(op@));
        },
        NfsOperation::Remove { path } => {
            out.push(4u8);
            push_string(&mut out, path.as_str());
            assert(out@ =~= senc_operation(op@));
        },
        NfsOperation::Stat { path } => {
            out.push(5u8);
            push_string(&mut out, path.as_str());
            assert(out@ =~= senc_operation(op@));
        },
        NfsOperation::Readdir { path } => {
            out.push(6u8);
            push_string(&mut out, path.as_str());
            assert(out@ =~= senc_operation(op@));
        },
        NfsOperation::Rename { from, to } => {
            out.push(7u8);
            push_string(&mut out, from.as_str());
            push_string(&mut out, to.as_str());
            assert(out@ =~= senc_operation(op@));
        },
        NfsOperation::Symlink { target, link } => {
            out.push(8u8);
            push_string(&mut out, target.as_str());
            push_string(&mut out, link.as_str());
            assert(out@ =~= senc_operation(op@));
        },
        NfsOperation::Fsync { path } => {
            out.push(9u8);
            push_string(&mut out, path.as_str());
            assert(out@ =~= senc_operation(op@));
        },
    }
    out
}

#[verifier::rlimit(100)]
pub fn decode_operation(buf: &Vec<u8>) -> (r: Option<NfsOperation>)
    ensures
        match r {
            Some(op) => sdec_operation(buf@) == Some(op@),
            None => sdec_operation(buf@) is None,
        },
{
    match dec_u8(buf, 0) {
        None => None,
        Some((tag, p0)) => if tag == 0 {
            match dec_string(buf, p0) {
                Some((path, p1)) => match dec_u64(buf, p1) {
                    Some((offset, p2)) => match dec_u64(buf, p2) {
                        Some((length, p3)) => if p3 == buf.len() {
                            Some(NfsOperation::Read { path, offset, length })
                        } else {
                            None
                        },
                        None => None,
                    },
                    None => None,
                },
                None => None,
            }
        } else if tag == 1 {
            match dec_string(buf, p0) {
                Some((path, p1)) => match dec_u64(buf, p1) {
                    Some((offset, p2)) => match dec_bytes(buf, p2) {
                        Some((data, p3)) => if p3 == buf.len() {
                            Some(NfsOperation::Write { path, offset, data })
                        } else {
                            None
                        },
                        None => None,
                    },
                    None => None,
                },
                None => None,
            }
        } else if tag == 2 {
            match dec_string(buf, p0) {
                Some((path, p1)) => match dec_u32(buf, p1) {
                    Some((mode, p2)) => if p2 == buf.len() {
                        Some(NfsOperation::Create { path, mode })
                    } else {
                        None
                    },
                    None => None,
                },
                None => None,
            }
        } else if tag == 3 {
            match dec_string(buf, p0) {
                Some((path, p1)) => match dec_u32(buf, p1) {
                    Some((mode, p2)) => if p2 == buf.len() {
                        Some(NfsOperation::Mkdir { path, mode })
                    } else {
                        None
                    },
                    None => None,
                },
                None => None,
            }
        } else if tag == 4 {
            match dec_string(buf, p0) {
                Some((path, p1)) => if p1 == buf.len() {
                    Some(NfsOperation::Remove { path })
                } else {
                    None
                },
                None => None,
            }
        } else if tag == 5 {
            match dec_string(buf, p0) {
                Some((path, p1)) => if p1 == buf.len() {
                    Some(NfsOperation::Stat { path })
                } else {
                    None
                },
                None => None,
            }
        } else if tag == 6 {
            match dec_string(buf, p0) {
                Some((path, p1)) => if p1 == buf.len() {
                    Some(NfsOperation::Readdir { path })
                } else {
                    None
                },
                None => None,
            }
        } else if tag == 7 {
            match dec_string(buf, p0) {
                Some((from, p1)) => match dec_string(buf, p1) {
                    Some((to, p2)) => if p2 == buf.len() {
                        Some(NfsOperation::Rename { from, to })
                    } else {
                        None
                    },
                    None => None,
                },
                None => None,
            }
        } else if tag == 8 {
            match dec_string(buf, p0) {
                Some((target, p1)) => match dec_string(buf, p1) {
                    Some((link, p2)) => if p2 == buf.len() {
                        Some(NfsOperation::Symlink { target, link })
                    } else {
                        None
                    },
                    None => None,
                },
                None => None,
            }
        } else if tag == 9 {
            match dec_string(buf, p0) {
                Some((path, p1)) => if p1 == buf.len() {
                    Some(NfsOperation::Fsync { path })
                } else {
                    None
                },
                None => None,
            }
        } else {
            None
        },
    }
}

// ---------------------------------------------------------------------------
// Executable codec for responses
// ---------------------------------------------------------------------------

pub fn encode_response(resp: &NfsResponse) -> (r: Vec<u8>)
    requires
        resp_encodable(resp@),
    ensures
        r@ == senc_response(resp@),
{
    let mut out: Vec<u8> = Vec::new();
    match resp {
        NfsResponse::Success(data) => {
            out.push(0u8);
            push_bytes(&mut out, data);
            assert(out@ =~= senc_response(resp@));
        },
        NfsResponse::Error(msg) => {
            out.push(1u8);
            push_string(&mut out, msg.as_str());
            assert(out@ =~= senc_response(resp@));
        },
    }
    out
}

pub fn decode_response(buf: &Vec<u8>) -> (r: Option<NfsResponse>)
    ensures
        match r {
            Some(resp) => sdec_response(buf@) == Some(resp@),
            None => sdec_response(buf@) is None,
        },
{
    match dec_u8(buf, 0) {
        None => None,
        Some((tag, p0)) => if tag == 0 {
            match dec_bytes(buf, p0) {
                Some((data, p1)) => if p1 == buf.len() {
                    Some(NfsResponse::Success(data))
                } else {
                    None
                },
                None => None,
            }
        } else if tag == 1 {
            match dec_string(buf, p0) {
                Some((msg, p1)) => if p1 == buf.len() {
                    Some(NfsResponse::Error(msg))
                } else {
                    None
                },
                None => None,
            }
        } else {
            None
        },
    }
}

// ---------------------------------------------------------------------------
// Wire-size checks: every send path measures its message against the frame
// bound before encoding, so the encoders' length preconditions always hold.
// ---------------------------------------------------------------------------

use crate::protocol::MAX_MESSAGE_SIZE;

/// Measures an operation's wire form against the message bound.
#[verifier::rlimit(100)]
pub fn operation_wire_size(op: &NfsOperation) -> (r: Option<u64>)
    ensures
        match r {
            Some(n) => n == senc_operation(op@).len() && n <= MAX_MESSAGE_SIZE && op_encodable(
                op@,
            ),
            None => senc_operation(op@).len() > MAX_MESSAGE_SIZE,
        },
{
    match op {
        NfsOperation::Read { path, .. } => {
            let pl = path.as_str().as_bytes().len();
            if pl as u64 > MAX_MESSAGE_SIZE - 21 {
                None
            } else {
                Some(pl as u64 + 21)
            }
        },
        NfsOperation::Write { path, data, .. } => {
            let pl = path.as_str().as_bytes().len();
            if pl as u64 > MAX_MESSAGE_SIZE - 17 {
                None
            } else {
                let dl = data.len();
                if dl as u64 > MAX_MESSAGE_SIZE - 17 - pl as u64 {
                    None
                } else {
                    Some(17 + pl as u64 + dl as u64)
                }
            }
        },
        NfsOperation::Create { path, .. } => {
            let pl = path.as_str().as_bytes().len();
            if pl as u64 > MAX_MESSAGE_SIZE - 9 {
                None
            } else {
                Some(pl as u64 + 9)
            }
        },
        NfsOperation::Mkdir { path, .. } => {
            let pl = path.as_str().as_bytes().len();
            if pl as u64 > MAX_MESSAGE_SIZE - 9 {
                None
            } else {
                Some(pl as u64 + 9)
            }
        },
        NfsOperation::Remove { path } => {
            let pl = path.as_str().as_bytes().len();
            if pl as u64 > MAX_MESSAGE_SIZE - 5 {
                None
            } else {
                Some(pl as u64 + 5)
            }
        },
        NfsOperation::Stat { path } => {
            let pl = path.as_str().as_bytes().len();
            if pl as u64 > MAX_MESSAGE_SIZE - 5 {
                None
            } else {
                Some(pl as u64 + 5)
            }
        },
        NfsOperation::Readdir { path } => {
            let pl = path.as_str().as_bytes().len();
            if pl as u64 > MAX_MESSAGE_SIZE - 5 {
                None
            } else {
                Some(pl as u64 + 5)
            }
        },
        NfsOperation::Rename { from, to } => {
            let al = from.as_str().as_bytes().len();
            if al as u64 > MAX_MESSAGE_SIZE - 9 {
                None
            } else {
                let cl = to.as_str().as_bytes().len();
                if cl as u64 > MAX_MESSAGE_SIZE - 9 - al as u64 {
                    None
                } else {
                    Some(9 + al as u64 + cl as u64)
                }
            }
        },
        NfsOperation::Symlink { target, link } => {
            let al = target.as_str().as_bytes().len();
            if al as u64 > MAX_MESSAGE_SIZE - 9 {
                None
            } else {
                let cl = link.as_str().as_bytes().len();
                if cl as u64 > MAX_MESSAGE_SIZE - 9 - al as u64 {
                    None
                } else {
                    Some(9 + al as u64 + cl as u64)
                }
            }
        },
        NfsOperation::Fsync { path } => {
            let pl = path.as_str().as_bytes().len();
            if pl as u64 > MAX_MESSAGE_SIZE - 5 {
                None
            } else {
                Some(pl as u64 + 5)
            }
        },
    }
}

/// Measures a response's wire form against the message bound.
pub fn response_wire_size(resp: &NfsResponse) -> (r: Option<u64>)
    ensures
        match r {
            Some(n) => n == senc_response(resp@).len() && n <= MAX_MESSAGE_SIZE && resp_encodable(
                resp@,
            ),
            None => senc_response(resp@).len() > MAX_MESSAGE_SIZE,
        },
{
    match resp {
        NfsResponse::Success(data) => {
            let dl = data.len();
            if dl as u64 > MAX_MESSAGE_SIZE - 5 {
                None
            } else {
                Some(dl as u64 + 5)
            }
        },
        NfsResponse::Error(msg) => {
            let ml = msg.as_str().as_bytes().len();
            if ml as u64 > MAX_MESSAGE_SIZE - 5 {
                None
            } else {
                Some(ml as u64 + 5)
            }
        },
    }
}

/// Each encoded entry occupies at least five bytes.
proof fn lemma_senc_entry_seq_len_lower(es: Seq<DirEntryView>)
    ensures
        senc_entry_seq(es).len() >= 5 * es.len(),
    decreases es.len(),
{
    if es.len() == 0 {
    } else {
        lemma_senc_entry_seq_len_lower(es.drop_first());
    }
}

/// An encoded prefix never outgrows the whole encoding.
proof fn lemma_senc_entry_seq_prefix(es: Seq<DirEntryView>, i: int)
    requires
        0 <= i <= es.len(),
    ensures
        senc_entry_seq(es).len() >= senc_entry_seq(es.take(i)).len(),
{
    lemma_senc_entry_seq_concat(es.take(i), es.skip(i));
    assert(es.take(i) + es.skip(i) =~= es);
}

/// Measures a directory listing's wire form against the message bound.
#[verifier::rlimit(100)]
pub fn entries_wire_size(es: &Vec<DirEntry>) -> (r: Option<u64>)
    ensures
        match r {
            Some(n) => n == senc_entries(entry_views(es@)).len() && n <= MAX_MESSAGE_SIZE
                && len_fits(es@.len()) && entry_names_fit(entry_views(es@)),
            None => senc_entries(entry_views(es@)).len() > MAX_MESSAGE_SIZE,
        },
{
    let ghost views = entry_views(es@);
    let mut acc: u64 = 4;
    let mut i: usize = 0;
    while i < es.len()
        invariant
            i <= es@.len(),
            views == entry_views(es@),
            4 <= acc <= MAX_MESSAGE_SIZE,
            acc == 4 + senc_entry_seq(views.take(i as int)).len(),
            entry_names_fit(views.take(i as int)),
        decreases es@.len() - i,
    {
        let nl = es[i].name.as_str().as_bytes().len();
        proof {
            assert(views[i as int].name == es@[i as int].name@);
        }
        if nl as u64 > MAX_MESSAGE_SIZE - 5 || acc > MAX_MESSAGE_SIZE - 5 - nl as u64 {
            proof {
                lemma_senc_entry_seq_push(views.take(i as int), views[i as int]);
                assert(views.take(i as int).push(views[i as int]) =~= views.take(i + 1));
                lemma_senc_entry_seq_prefix(views, i + 1);
            }
            return None;
        }
        acc = acc + 5 + nl as u64;
        proof {
            lemma_senc_entry_seq_push(views.take(i as int), views[i as int]);
            assert(views.take(i as int).push(views[i as int]) =~= views.take(i + 1));
            assert forall|j: int| 0 <= j < i + 1 implies len_fits(
                encode_utf8(#[trigger] views.take(i + 1)[j].name).len(),
            ) by {
                if j < i {
                    assert(views.take(i + 1)[j] == views.take(i as int)[j]);
                    assert(len_fits(encode_utf8(views.take(i as int)[j].name).len()));
                } else {
                    assert(views.take(i + 1)[j] == views[i as int]);
                }
            }
        }
        i = i + 1;
    }
    proof {
        assert(views.take(es@.len() as int) =~= views);
        lemma_senc_entry_seq_len_lower(views);
    }
    Some(acc)
}

} // verus!
