//! Little-endian encoding and decoding of the fixed-width fields of the
//! dump format, over byte sequences read at a position.
use vstd::prelude::*;
use vstd::bytes::*;
use vstd::slice::slice_subrange;

verus! {

/// Why reading a dump failed.
#[derive(Clone, Copy, Debug, PartialEq, Eq, Structural)]
pub enum LoadError {
    /// The input ended inside a field; the value is the input length that
    /// reading the field needs (saturated at `usize::MAX`).
    Truncated(usize),
    /// The description does not begin with its magic number.
    DescrMagic,
    /// A distance name is longer than 256 bytes.
    DistNameTooLong,
    /// A type name is longer than 256 bytes.
    TypeNameTooLong,
    /// A stored name is not valid UTF-8.
    NotUtf8,
    /// The graph stream stores more layers than a graph can have.
    TooManyLayers,
    /// A layer of the graph stream does not begin with its magic number.
    LayerMagic,
    /// A point of the graph stream does not begin with its magic number.
    PointMagic,
    /// A record of the data stream does not begin with its magic number.
    DataMagic,
    /// The data stream stores another dimension than the description.
    DimensionMismatch,
    /// The distance stored in the description is not the one asked for.
    DistanceMismatch,
    /// A data record stores another origin id than the graph record of its point.
    OriginMismatch,
    /// A point stores another layer or rank than the place where it stands.
    PointIdMismatch,
    /// A neighbour refers to a point that the graph does not hold.
    NeighbourOutOfRange,
    /// The entry point refers to a point that the graph does not hold.
    EntryOutOfRange,
}

/// The input length that reading `w` bytes at `pos` needs, saturated.
pub open spec fn needed(pos: int, w: int) -> usize {
    if pos + w <= usize::MAX { (pos + w) as usize } else { usize::MAX }
}

pub open spec fn u8_bytes(x: u8) -> Seq<u8> {
    seq![x]
}

pub open spec fn u32_bytes(x: u32) -> Seq<u8> {
    spec_u32_to_le_bytes(x)
}

pub open spec fn i32_bytes(x: i32) -> Seq<u8> {
    spec_u32_to_le_bytes(x as u32)
}

/// A `usize` is stored on 8 bytes.
pub open spec fn usize_bytes(x: usize) -> Seq<u8> {
    spec_u64_to_le_bytes(x as u64)
}

/// `s` stands in `b` from `pos` on.
pub open spec fn holds_at(b: Seq<u8>, pos: int, s: Seq<u8>) -> bool {
    &&& 0 <= pos
    &&& pos + s.len() <= b.len()
    &&& b.subrange(pos, pos + s.len()) == s
}

pub open spec fn read_u8(b: Seq<u8>, pos: int) -> Result<u8, LoadError> {
    if pos + 1 <= b.len() { Ok(b[pos]) } else { Err(LoadError::Truncated(needed(pos, 1))) }
}

pub open spec fn read_u32(b: Seq<u8>, pos: int) -> Result<u32, LoadError> {
    if pos + 4 <= b.len() {
        Ok(spec_u32_from_le_bytes(b.subrange(pos, pos + 4)))
    } else {
        Err(LoadError::Truncated(needed(pos, 4)))
    }
}

pub open spec fn read_i32(b: Seq<u8>, pos: int) -> Result<i32, LoadError> {
    if pos + 4 <= b.len() {
        Ok(spec_u32_from_le_bytes(b.subrange(pos, pos + 4)) as i32)
    } else {
        Err(LoadError::Truncated(needed(pos, 4)))
    }
}

pub open spec fn read_usize(b: Seq<u8>, pos: int) -> Result<usize, LoadError> {
    if pos + 8 <= b.len() {
        Ok(spec_u64_from_le_bytes(b.subrange(pos, pos + 8)) as usize)
    } else {
        Err(LoadError::Truncated(needed(pos, 8)))
    }
}

pub open spec fn read_bytes(b: Seq<u8>, pos: int, n: int) -> Result<Seq<u8>, LoadError> {
    if pos + n <= b.len() {
        Ok(b.subrange(pos, pos + n))
    } else {
        Err(LoadError::Truncated(needed(pos, n)))
    }
}

pub fn put_u8(out: &mut Vec<u8>, x: u8)
    ensures
        final(out)@ == old(out)@ + u8_bytes(x),
{
    out.push(x);
    assert(final(out)@ =~= old(out)@ + u8_bytes(x));
}

pub fn put_u32(out: &mut Vec<u8>, x: u32)
    ensures
        final(out)@ == old(out)@ + u32_bytes(x),
{
    let mut b = u32_to_le_bytes(x);
    out.append(&mut b);
}

pub fn put_i32(out: &mut Vec<u8>, x: i32)
    ensures
        final(out)@ == old(out)@ + i32_bytes(x),
{
    let mut b = u32_to_le_bytes(x as u32);
    out.append(&mut b);
}

pub fn put_usize(out: &mut Vec<u8>, x: usize)
    ensures
        final(out)@ == old(out)@ + usize_bytes(x),
{
    let mut b = u64_to_le_bytes(x as u64);
    out.append(&mut b);
}

pub fn put_bytes(out: &mut Vec<u8>, s: &[u8])
    ensures
        final(out)@ == old(out)@ + s@,
{
    let mut b = vstd::slice::slice_to_vec(s);
    out.append(&mut b);
}

pub fn get_u8(b: &[u8], pos: usize) -> (r: Result<u8, LoadError>)
    ensures
        r == read_u8(b@, pos as int),
{
    if pos < b.len() {
        Ok(b[pos])
    } else {
        Err(LoadError::Truncated(if pos < usize::MAX { pos + 1 } else { usize::MAX }))
    }
}

pub fn get_u32(b: &[u8], pos: usize) -> (r: Result<u32, LoadError>)
    ensures
        r == read_u32(b@, pos as int),
{
    if pos <= b.len() && b.len() - pos >= 4 {
        Ok(u32_from_le_bytes(slice_subrange(b, pos, pos + 4)))
    } else {
        Err(LoadError::Truncated(if pos <= usize::MAX - 4 { pos + 4 } else { usize::MAX }))
    }
}

pub fn get_i32(b: &[u8], pos: usize) -> (r: Result<i32, LoadError>)
    ensures
        r == read_i32(b@, pos as int),
{
    match get_u32(b, pos) {
        Ok(x) => Ok(x as i32),
        Err(e) => Err(e),
    }
}

pub fn get_usize(b: &[u8], pos: usize) -> (r: Result<usize, LoadError>)
    ensures
        r == read_usize(b@, pos as int),
{
    if pos <= b.len() && b.len() - pos >= 8 {
        Ok(u64_from_le_bytes(slice_subrange(b, pos, pos + 8)) as usize)
    } else {
        Err(LoadError::Truncated(if pos <= usize::MAX - 8 { pos + 8 } else { usize::MAX }))
    }
}

pub fn get_bytes(b: &[u8], pos: usize, n: usize) -> (r: Result<Vec<u8>, LoadError>)
    ensures
        match r {
            Ok(v) => read_bytes(b@, pos as int, n as int) == Ok::<Seq<u8>, LoadError>(v@),
            Err(e) => read_bytes(b@, pos as int, n as int) == Err::<Seq<u8>, LoadError>(e),
        },
{
    if pos <= b.len() && b.len() - pos >= n {
        Ok(vstd::slice::slice_to_vec(slice_subrange(b, pos, pos + n)))
    } else {
        Err(LoadError::Truncated(if pos <= usize::MAX - n { pos + n } else { usize::MAX }))
    }
}

/// Reading a `u8` where its encoding stands gives it back.
pub proof fn lemma_read_u8(b: Seq<u8>, pos: int, x: u8)
    requires
        holds_at(b, pos, u8_bytes(x)),
    ensures
        read_u8(b, pos) == Ok::<u8, LoadError>(x),
{
    assert(b.subrange(pos, pos + 1)[0] == b[pos]);
}

pub proof fn lemma_read_u32(b: Seq<u8>, pos: int, x: u32)
    requires
        holds_at(b, pos, u32_bytes(x)),
    ensures
        read_u32(b, pos) == Ok::<u32, LoadError>(x),
{
    lemma_auto_spec_u32_to_from_le_bytes();
}

pub proof fn lemma_read_i32(b: Seq<u8>, pos: int, x: i32)
    requires
        holds_at(b, pos, i32_bytes(x)),
    ensures
        read_i32(b, pos) == Ok::<i32, LoadError>(x),
{
    lemma_auto_spec_u32_to_from_le_bytes();
    assert(((x as u32) as i32) == x) by (bit_vector);
}

pub proof fn lemma_read_usize(b: Seq<u8>, pos: int, x: usize)
    requires
        holds_at(b, pos, usize_bytes(x)),
    ensures
        read_usize(b, pos) == Ok::<usize, LoadError>(x),
{
    lemma_auto_spec_u64_to_from_le_bytes();
}

pub proof fn lemma_read_bytes(b: Seq<u8>, pos: int, s: Seq<u8>)
    requires
        holds_at(b, pos, s),
    ensures
        read_bytes(b, pos, s.len() as int) == Ok::<Seq<u8>, LoadError>(s),
{
}

/// A concatenation that stands at `pos` splits into its two parts.
pub proof fn lemma_holds_split(b: Seq<u8>, pos: int, s1: Seq<u8>, s2: Seq<u8>)
    requires
        holds_at(b, pos, s1 + s2),
    ensures
        holds_at(b, pos, s1),
        holds_at(b, pos + s1.len(), s2),
{
    let whole = b.subrange(pos, pos + s1.len() + s2.len());
    assert(whole == s1 + s2);
    assert(b.subrange(pos, pos + s1.len()) =~= whole.subrange(0, s1.len() as int));
    assert(whole.subrange(0, s1.len() as int) =~= s1);
    assert(b.subrange(pos + s1.len(), pos + s1.len() + s2.len()) =~= whole.subrange(
        s1.len() as int,
        (s1.len() + s2.len()) as int,
    ));
    assert(whole.subrange(s1.len() as int, (s1.len() + s2.len()) as int) =~= s2);
}

pub proof fn lemma_len_bytes()
    ensures
        forall|x: u8| #[trigger] u8_bytes(x).len() == 1,
        forall|x: u32| #[trigger] u32_bytes(x).len() == 4,
        forall|x: i32| #[trigger] i32_bytes(x).len() == 4,
        forall|x: usize| #[trigger] usize_bytes(x).len() == 8,
{
    lemma_auto_spec_u32_to_from_le_bytes();
    lemma_auto_spec_u64_to_from_le_bytes();
}

} // verus!
