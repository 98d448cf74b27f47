//! UTF-16 text as the patch dialect carries it.
use vstd::prelude::*;

use crate::codec::{le16, lemma_u16_le, put_u16, u16_le};

verus! {

/// The UTF-16 code units of one character.
pub open spec fn utf16_char(c: char) -> Seq<u16> {
    let v = c as u32;
    if v < 0x10000 {
        seq![v as u16]
    } else {
        seq![(0xD800 + (v - 0x10000) / 1024) as u16, (0xDC00 + (v - 0x10000) % 1024) as u16]
    }
}

/// The UTF-16 code units of a string.
pub open spec fn utf16_of(s: Seq<char>) -> Seq<u16>
    decreases s.len(),
{
    if s.len() == 0 {
        Seq::empty()
    } else {
        utf16_of(s.drop_last()) + utf16_char(s.last())
    }
}

/// Code units laid out as little-endian bytes.
pub open spec fn units_le(u: Seq<u16>) -> Seq<u8>
    decreases u.len(),
{
    if u.len() == 0 {
        Seq::empty()
    } else {
        units_le(u.drop_last()) + le16(u.last())
    }
}

/// Little-endian bytes read as code units, two bytes each.
pub open spec fn units_of(b: Seq<u8>) -> Seq<u16> {
    Seq::new(b.len() / 2, |i: int| u16_le(b.subrange(2 * i, 2 * i + 2)))
}

/// What `String::from_utf16_lossy` makes of these code units.
pub uninterp spec fn utf16_lossy(u: Seq<u16>) -> Seq<char>;

/// The code units of `s`, in order.
pub fn encode_utf16(s: &str) -> (u: Vec<u16>)
    ensures
        u@ == utf16_of(s@),
{
    let mut u: Vec<u16> = Vec::new();
    assert(s@.take(s@.len() as int) =~= s@);
    for c in it: s.chars()
        invariant
            it.seq() == s@,
            s@.take(s@.len() as int) == s@,
            u@ == utf16_of(s@.take(it.index())),
        ensures
            u@ == utf16_of(s@),
    {
        proof {
            assert(s@.take(it.index() + 1).drop_last() =~= s@.take(it.index()));
        }
        let v = c as u32;
        if v < 0x10000 {
            u.push(v as u16);
        } else {
            u.push((0xD800 + (v - 0x10000) / 1024) as u16);
            u.push((0xDC00 + (v - 0x10000) % 1024) as u16);
        }
        assert(u@ =~= utf16_of(s@.take(it.index() + 1)));
    }
    u
}

/// Relies on `String::from_utf16_lossy`: the string that the code units
/// encode, with U+FFFD in place of each unpaired surrogate. Code units that
/// are the encoding of some string decode to exactly that string.
#[verifier::external_body]
fn decode_utf16_lossy(u: &Vec<u16>) -> (s: String)
    ensures
        s@ == utf16_lossy(u@),
        forall|t: Seq<char>| utf16_of(t) == u@ ==> s@ == t,
{
    String::from_utf16_lossy(u.as_slice())
}

/// Appends the code units as little-endian bytes.
pub fn put_units(buf: &mut Vec<u8>, u: &[u16])
    ensures
        final(buf)@ == old(buf)@ + units_le(u@),
{
    let mut i: usize = 0;
    while i < u.len()
        invariant
            i <= u@.len(),
            buf@ == old(buf)@ + units_le(u@.take(i as int)),
        decreases u@.len() - i,
    {
        put_u16(buf, u[i]);
        proof {
            assert(u@.take(i + 1).drop_last() =~= u@.take(i as int));
        }
        i = i + 1;
        assert(buf@ =~= old(buf)@ + units_le(u@.take(i as int)));
    }
    assert(u@.take(u@.len() as int) =~= u@);
}

/// Reads the bytes from `at` to the end, which are an even number, as
/// little-endian code units.
pub fn get_units(data: &Vec<u8>, at: usize) -> (u: Vec<u16>)
    requires
        at <= data@.len(),
        (data@.len() - at) % 2 == 0,
    ensures
        u@ == units_of(data@.subrange(at as int, data@.len() as int)),
{
    let ghost b = data@.subrange(at as int, data@.len() as int);
    let len = data.len();
    let mut u: Vec<u16> = Vec::new();
    let mut i: usize = at;
    while i < len
        invariant
            len == data@.len(),
            at <= i <= len,
            (len - i) % 2 == 0,
            b == data@.subrange(at as int, len as int),
            b.len() == len - at,
            u@.len() * 2 == i - at,
            forall|k: int| 0 <= k < u@.len() ==> u@[k] == units_of(b)[k],
        decreases len - i,
    {
        let v = crate::codec::get_u16(data, i);
        proof {
            let k = u@.len() as int;
            assert(b.subrange(2 * k, 2 * k + 2) =~= data@.subrange(i as int, i + 2));
        }
        u.push(v);
        i = i + 2;
    }
    assert(u@ =~= units_of(b));
    u
}

/// Decodes little-endian UTF-16 bytes, replacing what is not valid UTF-16.
pub fn decode_text(data: &Vec<u8>, at: usize) -> (s: String)
    requires
        at <= data@.len(),
        (data@.len() - at) % 2 == 0,
    ensures
        s@ == utf16_lossy(units_of(data@.subrange(at as int, data@.len() as int))),
        forall|t: Seq<char>|
            utf16_of(t) == units_of(data@.subrange(at as int, data@.len() as int)) ==> s@ == t,
{
    let u = get_units(data, at);
    decode_utf16_lossy(&u)
}

/// Little-endian code units read back as the same units.
pub proof fn lemma_units_of_le(u: Seq<u16>)
    ensures
        units_le(u).len() == 2 * u.len(),
        units_of(units_le(u)) == u,
    decreases u.len(),
{
    if u.len() > 0 {
        lemma_units_of_le(u.drop_last());
        let b = units_le(u);
        let b0 = units_le(u.drop_last());
        assert forall|i: int| 0 <= i < u.len() implies #[trigger] units_of(b)[i] == u[i] by {
            if i < u.len() - 1 {
                assert(b.subrange(2 * i, 2 * i + 2) =~= b0.subrange(2 * i, 2 * i + 2));
                assert(units_of(b0)[i] == u.drop_last()[i]);
            } else {
                assert(b.subrange(2 * i, 2 * i + 2) =~= le16(u.last()));
            }
        }
        assert(units_of(b) =~= u);
    }
}

/// Bytes read as code units and laid out again are the same bytes.
pub proof fn lemma_units_le_of(b: Seq<u8>)
    requires
        b.len() % 2 == 0,
    ensures
        units_le(units_of(b)) == b,
    decreases b.len(),
{
    if b.len() > 0 {
        let c = b.subrange(0, b.len() - 2);
        lemma_units_le_of(c);
        let u = units_of(b);
        assert(u.drop_last() =~= units_of(c)) by {
            assert forall|i: int| 0 <= i < u.len() - 1 implies u.drop_last()[i] == units_of(c)[i] by {
                assert(b.subrange(2 * i, 2 * i + 2) =~= c.subrange(2 * i, 2 * i + 2));
            }
        }
        lemma_u16_le(b.subrange(b.len() - 2, b.len() as int));
        assert(b =~= units_le(u));
    }
}

} // verus!
