//! The binary dataset format: a 68-byte header, then one record per vector.
//!
//! Header: the magic `EMBR_DST`, the format version (u32), then `count`,
//! `dimension` and `seed` (u64 each), then 32 reserved zero bytes.
//! Record: `pos_len` (u32), the `pos` indices (u32 each), `neg_len` (u32),
//! the `neg` indices (u32 each). All integers are little-endian.

use crate::vector::{SparseVec, VecModel};
use vstd::bytes::{
    lemma_auto_spec_u32_to_from_le_bytes, lemma_auto_spec_u64_to_from_le_bytes,
    spec_u32_from_le_bytes, spec_u32_to_le_bytes, spec_u64_from_le_bytes, spec_u64_to_le_bytes,
    u32_from_le_bytes, u32_to_le_bytes, u64_from_le_bytes, u64_to_le_bytes,
};
use vstd::prelude::*;

verus! {

/// Current format version.
pub const FORMAT_VERSION: u32 = 1;

/// Header size in bytes.
pub const HEADER_SIZE: usize = 68;

/// Bytes of the header up to and including `seed`.
pub const META_SIZE: usize = 36;

/// Size of the reserved region that ends the header.
pub const RESERVED_SIZE: usize = 32;

/// What a dataset header describes.
#[derive(Clone, Copy, Debug, PartialEq, Eq, Structural)]
pub struct DatasetMeta {
    pub count: u64,
    pub dimension: u64,
    pub seed: u64,
}

/// Why a dataset could not be written or read.
#[derive(Clone, Copy, Debug, PartialEq, Eq, Structural)]
pub enum DatasetError {
    /// The first eight bytes are not the magic.
    InvalidMagic,
    /// The header names a version this reader does not know.
    UnsupportedVersion(u32),
    /// The bytes end inside the header or inside a record.
    Truncated,
    /// A length or an index does not fit in a u32.
    NotEncodable,
}

/// The magic bytes `EMBR_DST`.
pub open spec fn magic() -> Seq<u8> {
    seq![69u8, 77u8, 66u8, 82u8, 95u8, 68u8, 83u8, 84u8]
}

/// The header of a dataset of `count` vectors.
pub open spec fn header_bytes(count: u64, dimension: u64, seed: u64) -> Seq<u8> {
    magic() + spec_u32_to_le_bytes(FORMAT_VERSION) + spec_u64_to_le_bytes(count)
        + spec_u64_to_le_bytes(dimension) + spec_u64_to_le_bytes(seed) + Seq::new(
        RESERVED_SIZE as nat,
        |i: int| 0u8,
    )
}

/// The indices of `s`, four bytes each.
pub open spec fn index_bytes(s: Seq<usize>) -> Seq<u8>
    decreases s.len(),
{
    if s.len() == 0 {
        Seq::empty()
    } else {
        index_bytes(s.drop_last()) + spec_u32_to_le_bytes(s.last() as u32)
    }
}

/// A length-prefixed index list.
pub open spec fn list_bytes(s: Seq<usize>) -> Seq<u8> {
    spec_u32_to_le_bytes(s.len() as u32) + index_bytes(s)
}

/// The record of one vector.
pub open spec fn record_bytes(m: VecModel) -> Seq<u8> {
    list_bytes(m.0) + list_bytes(m.1)
}

/// The records of `ms`, in order.
pub open spec fn records_bytes(ms: Seq<VecModel>) -> Seq<u8>
    decreases ms.len(),
{
    if ms.len() == 0 {
        Seq::empty()
    } else {
        records_bytes(ms.drop_last()) + record_bytes(ms.last())
    }
}

/// A whole dataset file.
pub open spec fn dataset_bytes(meta: DatasetMeta, ms: Seq<VecModel>) -> Seq<u8> {
    header_bytes(meta.count, meta.dimension, meta.seed) + records_bytes(ms)
}

/// The list's length and every index fit in a u32.
pub open spec fn list_encodable(s: Seq<usize>) -> bool {
    &&& s.len() <= u32::MAX
    &&& forall|i: int| 0 <= i < s.len() ==> s[i] <= u32::MAX
}

/// Both lists of `m` fit the record layout.
pub open spec fn encodable(m: VecModel) -> bool {
    list_encodable(m.0) && list_encodable(m.1)
}

/// Every vector of `ms` fits the record layout.
pub open spec fn all_encodable(ms: Seq<VecModel>) -> bool {
    forall|i: int| 0 <= i < ms.len() ==> encodable(#[trigger] ms[i])
}

fn push_u32(out: &mut Vec<u8>, x: u32)
    ensures
        final(out)@ == old(out)@ + spec_u32_to_le_bytes(x),
{
    let mut b = u32_to_le_bytes(x);
    out.append(&mut b);
}

fn push_u64(out: &mut Vec<u8>, x: u64)
    ensures
        final(out)@ == old(out)@ + spec_u64_to_le_bytes(x),
{
    let mut b = u64_to_le_bytes(x);
    out.append(&mut b);
}

/// Appends the header of a dataset of `count` vectors.
pub fn write_header(out: &mut Vec<u8>, count: u64, dimension: u64, seed: u64)
    ensures
        final(out)@ == old(out)@ + header_bytes(count, dimension, seed),
{
    let ghost start = out@;
    let magic_bytes: Vec<u8> = vec![69u8, 77u8, 66u8, 82u8, 95u8, 68u8, 83u8, 84u8];
    let mut i: usize = 0;
    while i < magic_bytes.len()
        invariant
            magic_bytes@ == magic(),
            i <= magic_bytes@.len(),
            out@ == start + magic_bytes@.subrange(0, i as int),
        decreases magic_bytes@.len() - i,
    {
        out.push(magic_bytes[i]);
        i = i + 1;
        assert(out@ =~= start + magic_bytes@.subrange(0, i as int));
    }
    assert(magic_bytes@.subrange(0, 8) =~= magic());
    push_u32(out, FORMAT_VERSION);
    push_u64(out, count);
    push_u64(out, dimension);
    push_u64(out, seed);
    let ghost before_reserved = out@;
    let mut j: usize = 0;
    while j < RESERVED_SIZE
        invariant
            j <= RESERVED_SIZE,
            out@ == before_reserved + Seq::new(j as nat, |k: int| 0u8),
        decreases RESERVED_SIZE - j,
    {
        out.push(0u8);
        j = j + 1;
        assert(out@ =~= before_reserved + Seq::new(j as nat, |k: int| 0u8));
    }
    assert(out@ =~= start + header_bytes(count, dimension, seed));
}

/// Whether the list fits the record layout.
fn check_list(s: &Vec<usize>) -> (r: bool)
    ensures
        r == list_encodable(s@),
{
    if s.len() > 0xffff_ffffusize {
        return false;
    }
    let mut i: usize = 0;
    while i < s.len()
        invariant
            i <= s@.len(),
            forall|k: int| 0 <= k < i ==> s@[k] <= u32::MAX,
        decreases s@.len() - i,
    {
        if s[i] > 0xffff_ffffusize {
            return false;
        }
        i = i + 1;
    }
    true
}

fn push_list(out: &mut Vec<u8>, s: &Vec<usize>)
    requires
        list_encodable(s@),
    ensures
        final(out)@ == old(out)@ + list_bytes(s@),
{
    let ghost start = out@;
    push_u32(out, s.len() as u32);
    let ghost after_len = out@;
    let mut i: usize = 0;
    while i < s.len()
        invariant
            i <= s@.len(),
            list_encodable(s@),
            out@ == after_len + index_bytes(s@.subrange(0, i as int)),
        decreases s@.len() - i,
    {
        push_u32(out, s[i] as u32);
        i = i + 1;
        assert(s@.subrange(0, i as int).drop_last() =~= s@.subrange(0, i as int - 1));
        assert(out@ =~= after_len + index_bytes(s@.subrange(0, i as int)));
    }
    assert(s@.subrange(0, s@.len() as int) =~= s@);
    assert(out@ =~= start + list_bytes(s@));
}

/// Appends the record of `v`; fails, appending nothing, where a length or
/// an index does not fit in a u32.
pub fn write_vector(out: &mut Vec<u8>, v: &SparseVec) -> (r: Result<(), DatasetError>)
    ensures
        r is Ok <==> encodable(v@),
        r is Ok ==> final(out)@ == old(out)@ + record_bytes(v@),
        r is Err ==> r == Err::<(), DatasetError>(DatasetError::NotEncodable) && final(out)@
            == old(out)@,
{
    if !check_list(&v.pos) || !check_list(&v.neg) {
        return Err(DatasetError::NotEncodable);
    }
    let ghost start = out@;
    push_list(out, &v.pos);
    push_list(out, &v.neg);
    assert(out@ =~= start + record_bytes(v@));
    Ok(())
}

/// The u32 stored at `off`.
pub open spec fn u32_at(b: Seq<u8>, off: int) -> u32 {
    spec_u32_from_le_bytes(b.subrange(off, off + 4))
}

/// The u64 stored at `off`.
pub open spec fn u64_at(b: Seq<u8>, off: int) -> u64 {
    spec_u64_from_le_bytes(b.subrange(off, off + 8))
}

/// The header of `b`, where `b` has at least `needed` bytes: the magic and
/// the version are checked first, in that order, and nothing after them is
/// read when either is wrong. The reserved bytes are not checked.
pub open spec fn parse_header(b: Seq<u8>, needed: int) -> Result<DatasetMeta, DatasetError> {
    if b.len() < 8 {
        Err(DatasetError::Truncated)
    } else if b.subrange(0, 8) != magic() {
        Err(DatasetError::InvalidMagic)
    } else if b.len() < 12 {
        Err(DatasetError::Truncated)
    } else if u32_at(b, 8) != FORMAT_VERSION {
        Err(DatasetError::UnsupportedVersion(u32_at(b, 8)))
    } else if b.len() < needed {
        Err(DatasetError::Truncated)
    } else {
        Ok(DatasetMeta { count: u64_at(b, 12), dimension: u64_at(b, 20), seed: u64_at(b, 28) })
    }
}

/// The length-prefixed index list at `off`, and the offset after it; `None`
/// where the bytes end first.
pub open spec fn parse_list(b: Seq<u8>, off: int) -> Option<(Seq<usize>, int)> {
    if off + 4 > b.len() {
        None
    } else {
        let n = u32_at(b, off) as int;
        if off + 4 + 4 * n > b.len() {
            None
        } else {
            Some((Seq::new(n as nat, |i: int| u32_at(b, off + 4 + 4 * i) as usize), off + 4 + 4 * n))
        }
    }
}

/// The record at `off`, and the offset after it.
pub open spec fn parse_record(b: Seq<u8>, off: int) -> Option<(VecModel, int)> {
    match parse_list(b, off) {
        None => None,
        Some((pos, mid)) => match parse_list(b, mid) {
            None => None,
            Some((neg, end)) => Some(((pos, neg), end)),
        },
    }
}

/// The `n` records from `off` on, and the offset after them.
pub open spec fn parse_records(b: Seq<u8>, off: int, n: nat) -> Option<(Seq<VecModel>, int)>
    decreases n,
{
    if n == 0 {
        Some((Seq::empty(), off))
    } else {
        match parse_records(b, off, (n - 1) as nat) {
            None => None,
            Some((ms, mid)) => match parse_record(b, mid) {
                None => None,
                Some((m, end)) => Some((ms.push(m), end)),
            },
        }
    }
}

/// A whole dataset: the header, then as many records as it counts.
/// Bytes after the last record are not read.
pub open spec fn parse_dataset(b: Seq<u8>) -> Result<(DatasetMeta, Seq<VecModel>), DatasetError> {
    match parse_header(b, HEADER_SIZE as int) {
        Err(e) => Err(e),
        Ok(meta) => match parse_records(b, HEADER_SIZE as int, meta.count as nat) {
            None => Err(DatasetError::Truncated),
            Some((ms, end)) => Ok((meta, ms)),
        },
    }
}

fn read_u32(b: &Vec<u8>, off: usize) -> (r: u32)
    requires
        off + 4 <= b@.len(),
    ensures
        r == u32_at(b@, off as int),
{
    let len = b.len();
    let s = vstd::slice::slice_subrange(b.as_slice(), off, off + 4);
    u32_from_le_bytes(s)
}

fn read_u64(b: &Vec<u8>, off: usize) -> (r: u64)
    requires
        off + 8 <= b@.len(),
    ensures
        r == u64_at(b@, off as int),
{
    let len = b.len();
    let s = vstd::slice::slice_subrange(b.as_slice(), off, off + 8);
    u64_from_le_bytes(s)
}

/// Reads the header, of which at least `needed` bytes must be present.
pub fn read_header(b: &Vec<u8>, needed: usize) -> (r: Result<DatasetMeta, DatasetError>)
    requires
        needed >= META_SIZE,
    ensures
        r == parse_header(b@, needed as int),
{
    if b.len() < 8 {
        return Err(DatasetError::Truncated);
    }
    let magic_bytes: Vec<u8> = vec![69u8, 77u8, 66u8, 82u8, 95u8, 68u8, 83u8, 84u8];
    let mut i: usize = 0;
    while i < 8
        invariant
            magic_bytes@ == magic(),
            i <= 8 <= b@.len(),
            forall|k: int| 0 <= k < i ==> b@[k] == magic()[k],
        decreases 8 - i,
    {
        if b[i] != magic_bytes[i] {
            assert(b@.subrange(0, 8)[i as int] != magic()[i as int]);
            return Err(DatasetError::InvalidMagic);
        }
        i = i + 1;
    }
    assert(b@.subrange(0, 8) =~= magic());
    if b.len() < 12 {
        return Err(DatasetError::Truncated);
    }
    let version = read_u32(b, 8);
    if version != FORMAT_VERSION {
        return Err(DatasetError::UnsupportedVersion(version));
    }
    if b.len() < needed {
        return Err(DatasetError::Truncated);
    }
    let count = read_u64(b, 12);
    let dimension = read_u64(b, 20);
    let seed = read_u64(b, 28);
    Ok(DatasetMeta { count, dimension, seed })
}

/// Reads the index list at `off`; `None` where the bytes end first.
fn read_list(b: &Vec<u8>, off: usize) -> (r: Option<(Vec<usize>, usize)>)
    requires
        off <= b@.len(),
    ensures
        match r {
            None => parse_list(b@, off as int) is None,
            Some((s, end)) => parse_list(b@, off as int) == Some((s@, end as int)),
        },
{
    if b.len() - off < 4 {
        return None;
    }
    let n = read_u32(b, off);
    let rest: u64 = (b.len() - off - 4) as u64;
    if (n as u64) * 4 > rest {
        return None;
    }
    let ghost nn = n as int;
    let start = off + 4;
    let mut s: Vec<usize> = Vec::new();
    let mut i: usize = 0;
    while i < n as usize
        invariant
            start == off + 4,
            start + 4 * nn <= b@.len() <= usize::MAX,
            nn == n as int,
            i <= nn,
            s@ == Seq::new(i as nat, |k: int| u32_at(b@, off + 4 + 4 * k) as usize),
        decreases nn - i,
    {
        let x = read_u32(b, start + 4 * i);
        s.push(x as usize);
        i = i + 1;
        assert(s@ =~= Seq::new(i as nat, |k: int| u32_at(b@, off + 4 + 4 * k) as usize));
    }
    Some((s, start + 4 * (n as usize)))
}

/// Reads the record at `off`; `None` where the bytes end first.
pub(crate) fn read_record(b: &Vec<u8>, off: usize) -> (r: Option<(SparseVec, usize)>)
    requires
        off <= b@.len(),
    ensures
        match r {
            None => parse_record(b@, off as int) is None,
            Some((v, end)) => parse_record(b@, off as int) == Some((v@, end as int)),
        },
{
    match read_list(b, off) {
        None => None,
        Some((pos, mid)) => match read_list(b, mid) {
            None => None,
            Some((neg, end)) => Some((SparseVec { pos, neg }, end)),
        },
    }
}

proof fn lemma_subrange_within(b: Seq<u8>, off: int, l: Seq<u8>, x: int, y: int)
    requires
        0 <= off,
        off + l.len() <= b.len(),
        b.subrange(off, off + l.len()) == l,
        0 <= x <= y <= l.len(),
    ensures
        b.subrange(off + x, off + y) == l.subrange(x, y),
{
    assert forall|k: int| 0 <= k < y - x implies b.subrange(off + x, off + y)[k] == l.subrange(
        x,
        y,
    )[k] by {
        assert(b[off + x + k] == b.subrange(off, off + l.len())[x + k]);
    }
    assert(b.subrange(off + x, off + y) =~= l.subrange(x, y));
}

proof fn lemma_index_bytes(s: Seq<usize>)
    ensures
        index_bytes(s).len() == 4 * s.len(),
        forall|i: int|
            0 <= i < s.len() ==> #[trigger] index_bytes(s).subrange(4 * i, 4 * i + 4)
                == spec_u32_to_le_bytes(s[i] as u32),
    decreases s.len(),
{
    lemma_auto_spec_u32_to_from_le_bytes();
    if s.len() > 0 {
        let p = s.drop_last();
        lemma_index_bytes(p);
        let head = index_bytes(p);
        let tail = spec_u32_to_le_bytes(s.last() as u32);
        assert forall|i: int| 0 <= i < s.len() implies #[trigger] index_bytes(s).subrange(
            4 * i,
            4 * i + 4,
        ) == spec_u32_to_le_bytes(s[i] as u32) by {
            if i < p.len() {
                assert(index_bytes(s).subrange(4 * i, 4 * i + 4) =~= head.subrange(4 * i, 4 * i + 4));
            } else {
                assert(index_bytes(s).subrange(4 * i, 4 * i + 4) =~= tail);
            }
        }
    }
}

proof fn lemma_parse_list(b: Seq<u8>, off: int, s: Seq<usize>)
    requires
        list_encodable(s),
        0 <= off,
        off + list_bytes(s).len() <= b.len(),
        b.subrange(off, off + list_bytes(s).len()) == list_bytes(s),
    ensures
        list_bytes(s).len() == 4 + 4 * s.len(),
        parse_list(b, off) == Some((s, off + list_bytes(s).len())),
{
    lemma_auto_spec_u32_to_from_le_bytes();
    lemma_index_bytes(s);
    let l = list_bytes(s);
    let n = s.len() as int;
    lemma_subrange_within(b, off, l, 0, 4);
    assert(l.subrange(0, 4) =~= spec_u32_to_le_bytes(s.len() as u32));
    assert(u32_at(b, off) == s.len());
    let parsed = Seq::new(n as nat, |i: int| u32_at(b, off + 4 + 4 * i) as usize);
    assert forall|i: int| 0 <= i < n implies parsed[i] == s[i] by {
        lemma_subrange_within(b, off, l, 4 + 4 * i, 8 + 4 * i);
        assert(l.subrange(4 + 4 * i, 8 + 4 * i) =~= index_bytes(s).subrange(4 * i, 4 * i + 4));
    }
    assert(parsed =~= s);
}

proof fn lemma_parse_record(b: Seq<u8>, off: int, m: VecModel)
    requires
        encodable(m),
        0 <= off,
        off + record_bytes(m).len() <= b.len(),
        b.subrange(off, off + record_bytes(m).len()) == record_bytes(m),
    ensures
        parse_record(b, off) == Some((m, off + record_bytes(m).len())),
{
    let p = list_bytes(m.0);
    let q = list_bytes(m.1);
    let r = record_bytes(m);
    lemma_subrange_within(b, off, r, 0, p.len() as int);
    assert(r.subrange(0, p.len() as int) =~= p);
    lemma_parse_list(b, off, m.0);
    lemma_subrange_within(b, off, r, p.len() as int, r.len() as int);
    assert(r.subrange(p.len() as int, r.len() as int) =~= q);
    lemma_parse_list(b, off + p.len(), m.1);
}

proof fn lemma_parse_records(b: Seq<u8>, off: int, ms: Seq<VecModel>)
    requires
        all_encodable(ms),
        0 <= off,
        off + records_bytes(ms).len() <= b.len(),
        b.subrange(off, off + records_bytes(ms).len()) == records_bytes(ms),
    ensures
        parse_records(b, off, ms.len()) == Some((ms, off + records_bytes(ms).len())),
    decreases ms.len(),
{
    if ms.len() > 0 {
        let p = ms.drop_last();
        let head = records_bytes(p);
        let tail = record_bytes(ms.last());
        let all = records_bytes(ms);
        lemma_subrange_within(b, off, all, 0, head.len() as int);
        assert(all.subrange(0, head.len() as int) =~= head);
        lemma_parse_records(b, off, p);
        lemma_subrange_within(b, off, all, head.len() as int, all.len() as int);
        assert(all.subrange(head.len() as int, all.len() as int) =~= tail);
        lemma_parse_record(b, off + head.len(), ms.last());
        assert(p.push(ms.last()) =~= ms);
    }
}

proof fn lemma_parse_header(b: Seq<u8>, meta: DatasetMeta, needed: int)
    requires
        META_SIZE <= needed <= HEADER_SIZE,
        HEADER_SIZE <= b.len(),
        b.subrange(0, HEADER_SIZE as int) == header_bytes(meta.count, meta.dimension, meta.seed),
    ensures
        parse_header(b, needed) == Ok::<DatasetMeta, DatasetError>(meta),
{
    lemma_auto_spec_u32_to_from_le_bytes();
    lemma_auto_spec_u64_to_from_le_bytes();
    let h = header_bytes(meta.count, meta.dimension, meta.seed);
    assert(spec_u32_to_le_bytes(FORMAT_VERSION).len() == 4);
    assert(spec_u64_to_le_bytes(meta.count).len() == 8);
    assert(spec_u64_to_le_bytes(meta.dimension).len() == 8);
    assert(spec_u64_to_le_bytes(meta.seed).len() == 8);
    lemma_subrange_within(b, 0, h, 0, 8);
    lemma_subrange_within(b, 0, h, 8, 12);
    lemma_subrange_within(b, 0, h, 12, 20);
    lemma_subrange_within(b, 0, h, 20, 28);
    lemma_subrange_within(b, 0, h, 28, 36);
    assert(h.subrange(0, 8) =~= magic());
    assert(h.subrange(8, 12) =~= spec_u32_to_le_bytes(FORMAT_VERSION));
    assert(h.subrange(12, 20) =~= spec_u64_to_le_bytes(meta.count));
    assert(h.subrange(20, 28) =~= spec_u64_to_le_bytes(meta.dimension));
    assert(h.subrange(28, 36) =~= spec_u64_to_le_bytes(meta.seed));
}

/// Reading back the bytes of a dataset gives its header and all its vectors,
/// where every vector fits the record layout and the header counts them.
pub proof fn lemma_round_trip(meta: DatasetMeta, ms: Seq<VecModel>)
    requires
        all_encodable(ms),
        meta.count == ms.len(),
    ensures
        parse_dataset(dataset_bytes(meta, ms)) == Ok::<(DatasetMeta, Seq<VecModel>), DatasetError>((meta, ms)),
        parse_header(dataset_bytes(meta, ms), META_SIZE as int) == Ok::<DatasetMeta, DatasetError>(meta),
{
    lemma_auto_spec_u32_to_from_le_bytes();
    lemma_auto_spec_u64_to_from_le_bytes();
    let b = dataset_bytes(meta, ms);
    let h = header_bytes(meta.count, meta.dimension, meta.seed);
    assert(h.len() == HEADER_SIZE);
    assert(b.subrange(0, HEADER_SIZE as int) =~= h);
    lemma_parse_header(b, meta, HEADER_SIZE as int);
    lemma_parse_header(b, meta, META_SIZE as int);
    assert(b.subrange(HEADER_SIZE as int, b.len() as int) =~= records_bytes(ms));
    lemma_parse_records(b, HEADER_SIZE as int, ms);
}

/// The records of two sequences, one after the other, are the records of
/// the two sequences joined.
pub proof fn lemma_records_bytes_concat(a: Seq<VecModel>, b: Seq<VecModel>)
    ensures
        records_bytes(a + b) == records_bytes(a) + records_bytes(b),
    decreases b.len(),
{
    if b.len() == 0 {
        assert(a + b =~= a);
        assert(records_bytes(a) + records_bytes(b) =~= records_bytes(a));
    } else {
        lemma_records_bytes_concat(a, b.drop_last());
        assert((a + b).drop_last() =~= a + b.drop_last());
        assert((a + b).last() == b.last());
        assert(records_bytes(a + b) =~= records_bytes(a) + records_bytes(b));
    }
}

/// A file with a wrong magic is refused as such, whatever follows it; one
/// with the right magic and another version is refused for its version.
/// Either way nothing after them is read.
pub proof fn lemma_format_rejection(b: Seq<u8>)
    ensures
        b.len() >= 8 && b.subrange(0, 8) != magic() ==> {
            &&& parse_dataset(b) == Err::<(DatasetMeta, Seq<VecModel>), DatasetError>(
                DatasetError::InvalidMagic,
            )
            &&& parse_header(b, META_SIZE as int) == Err::<DatasetMeta, DatasetError>(
                DatasetError::InvalidMagic,
            )
            &&& parse_header(b, HEADER_SIZE as int) == Err::<DatasetMeta, DatasetError>(
                DatasetError::InvalidMagic,
            )
        },
        b.len() >= 12 && b.subrange(0, 8) == magic() && u32_at(b, 8) != FORMAT_VERSION ==> {
            &&& parse_dataset(b) == Err::<(DatasetMeta, Seq<VecModel>), DatasetError>(
                DatasetError::UnsupportedVersion(u32_at(b, 8)),
            )
            &&& parse_header(b, META_SIZE as int) == Err::<DatasetMeta, DatasetError>(
                DatasetError::UnsupportedVersion(u32_at(b, 8)),
            )
            &&& parse_header(b, HEADER_SIZE as int) == Err::<DatasetMeta, DatasetError>(
                DatasetError::UnsupportedVersion(u32_at(b, 8)),
            )
        },
{
}

} // verus!
