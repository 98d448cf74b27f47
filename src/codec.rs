//! Little-endian primitives and the two frame layouts.
use vstd::prelude::*;
use crate::PacketParseError;
use vstd::string::StringSliceAdditionalSpecFns;

verus! {

/// The two little-endian bytes of `v`.
pub open spec fn le16(v: u16) -> Seq<u8> {
    seq![(v % 256) as u8, (v / 256) as u8]
}

/// The four little-endian bytes of `v`.
pub open spec fn le32(v: u32) -> Seq<u8> {
    seq![(v % 256) as u8, ((v / 256) % 256) as u8, ((v / 65536) % 256) as u8, (v / 16777216) as u8]
}

/// The value of the first two bytes of `b`, little-endian.
pub open spec fn u16_le(b: Seq<u8>) -> u16 {
    (b[0] + 256 * b[1]) as u16
}

/// The value of the first four bytes of `b`, little-endian.
pub open spec fn u32_le(b: Seq<u8>) -> u32 {
    (b[0] + 256 * b[1] + 65536 * b[2] + 16777216 * b[3]) as u32
}

/// `n` zero bytes.
pub open spec fn zeros(n: nat) -> Seq<u8> {
    Seq::new(n, |_i: int| 0u8)
}

pub proof fn lemma_le16(v: u16)
    ensures
        le16(v).len() == 2,
        u16_le(le16(v)) == v,
{
}

pub proof fn lemma_le32(v: u32)
    ensures
        le32(v).len() == 4,
        u32_le(le32(v)) == v,
{
}

pub proof fn lemma_u16_le(b: Seq<u8>)
    requires
        b.len() == 2,
    ensures
        le16(u16_le(b)) == b,
{
    assert(le16(u16_le(b)) =~= b);
}

proof fn lemma_bytes_u32(b0: u8, b1: u8, b2: u8, b3: u8)
    ensures
        ({
            let v = b0 as int + 256 * b1 as int + 65536 * b2 as int + 16777216 * b3 as int;
            &&& 0 <= v < 0x1_0000_0000
            &&& v % 256 == b0
            &&& (v / 256) % 256 == b1
            &&& (v / 65536) % 256 == b2
            &&& v / 16777216 == b3
        }),
{
    let v = b0 as int + 256 * b1 as int + 65536 * b2 as int + 16777216 * b3 as int;
    assert(v / 16777216 == b3);
    assert(v % 16777216 == b0 as int + 256 * b1 as int + 65536 * b2 as int);
    assert((v / 65536) == b2 as int + 256 * b3 as int);
    assert((v / 256) == b1 as int + 256 * b2 as int + 65536 * b3 as int);
}

pub proof fn lemma_u32_le(b: Seq<u8>)
    requires
        b.len() == 4,
    ensures
        le32(u32_le(b)) == b,
{
    lemma_bytes_u32(b[0], b[1], b[2], b[3]);
    assert(le32(u32_le(b)) =~= b);
}

/// Appends `v` in little-endian order.
pub fn put_u16(buf: &mut Vec<u8>, v: u16)
    ensures
        final(buf)@ == old(buf)@ + le16(v),
{
    buf.push((v % 256) as u8);
    buf.push((v / 256) as u8);
    assert(final(buf)@ =~= old(buf)@ + le16(v));
}

/// Appends `v` in little-endian order.
pub fn put_u32(buf: &mut Vec<u8>, v: u32)
    ensures
        final(buf)@ == old(buf)@ + le32(v),
{
    buf.push((v % 256) as u8);
    buf.push(((v / 256) % 256) as u8);
    buf.push(((v / 65536) % 256) as u8);
    buf.push((v / 16777216) as u8);
    assert(final(buf)@ =~= old(buf)@ + le32(v));
}

/// Reads a little-endian `u16` at offset `at`.
pub fn get_u16(data: &Vec<u8>, at: usize) -> (v: u16)
    requires
        at + 2 <= data@.len(),
    ensures
        v == u16_le(data@.subrange(at as int, at + 2)),
        le16(v) == data@.subrange(at as int, at + 2),
{
    proof {
        lemma_u16_le(data@.subrange(at as int, at + 2));
    }
    let len = data.len();
    assert(at + 1 < len);
    data[at] as u16 + 256 * (data[at + 1] as u16)
}

/// Reads a little-endian `u32` at offset `at`.
pub fn get_u32(data: &Vec<u8>, at: usize) -> (v: u32)
    requires
        at + 4 <= data@.len(),
    ensures
        v == u32_le(data@.subrange(at as int, at + 4)),
        le32(v) == data@.subrange(at as int, at + 4),
{
    proof {
        lemma_u32_le(data@.subrange(at as int, at + 4));
    }
    let len = data.len();
    assert(at + 3 < len);
    data[at] as u32 + 256 * (data[at + 1] as u32) + 65536 * (data[at + 2] as u32) + 16777216 * (
    data[at + 3] as u32)
}

/// Copies `N` bytes starting at offset `at` into an array.
pub fn get_array<const N: usize>(data: &Vec<u8>, at: usize) -> (a: [u8; N])
    requires
        at + N <= data@.len(),
    ensures
        a@ == data@.subrange(at as int, at + N),
{
    let len = data.len();
    let mut a = [0u8; N];
    let mut i: usize = 0;
    while i < N
        invariant
            at + N <= data@.len(),
            len == data@.len(),
            i <= N,
            forall|k: int| 0 <= k < i ==> a@[k] == data@[at + k],
        decreases N - i,
    {
        a[i] = data[at + i];
        i = i + 1;
    }
    assert(a@ =~= data@.subrange(at as int, at + N));
    a
}

/// Appends the bytes of `src`.
pub fn put_bytes(buf: &mut Vec<u8>, src: &[u8])
    ensures
        final(buf)@ == old(buf)@ + src@,
{
    let mut i: usize = 0;
    while i < src.len()
        invariant
            i <= src@.len(),
            buf@ == old(buf)@ + src@.subrange(0, i as int),
        decreases src@.len() - i,
    {
        buf.push(src[i]);
        i = i + 1;
        assert(buf@ =~= old(buf)@ + src@.subrange(0, i as int));
    }
    assert(src@.subrange(0, src@.len() as int) =~= src@);
}

} // verus!

verus! {

/// Zero bytes that bring `n` bytes up to a multiple of four.
pub open spec fn pad_len(n: nat) -> nat {
    ((4 - n % 4) % 4) as nat
}

/// The length field of a frame.
pub open spec fn frame_len(d: Seq<u8>) -> u16 {
    u16_le(d.subrange(0, 2))
}

/// The command field of a frame.
pub open spec fn frame_cmd(d: Seq<u8>) -> u16 {
    u16_le(d.subrange(2, 4))
}

/// A patch-dialect frame: total length, command, the body, then zeros up
/// to a multiple of four bytes.
pub open spec fn patch_frame(cmd: u16, body: Seq<u8>) -> Seq<u8> {
    let total = 4 + body.len() + pad_len(body.len());
    le16(total as u16) + le16(cmd) + body + zeros(pad_len(body.len()))
}

/// A login-dialect frame: total length, command, then the body, which opens
/// with the four-byte flag word.
pub open spec fn login_frame(cmd: u16, body: Seq<u8>) -> Seq<u8> {
    le16((4 + body.len()) as u16) + le16(cmd) + body
}

/// Turns "the error found, if any" into the result of a check.
pub open spec fn as_check(e: Option<PacketParseError>) -> Result<(), PacketParseError> {
    match e {
        Some(e) => Err(e),
        None => Ok(()),
    }
}

/// The error a patch-dialect header gives when the record's command is `cmd`:
/// a short header, another command, or a length field that is not the
/// frame's length.
pub open spec fn patch_header_error(d: Seq<u8>, cmd: u16) -> Option<PacketParseError> {
    if d.len() < 4 {
        Some(PacketParseError::NotEnoughBytes)
    } else if frame_cmd(d) != cmd {
        Some(PacketParseError::WrongPacketCommand)
    } else if frame_len(d) != d.len() {
        Some(PacketParseError::WrongPacketSize(frame_len(d), d.len() as usize))
    } else {
        None
    }
}

/// The error a patch-dialect frame gives for a record whose fields take `n`
/// bytes: a header error, too few bytes for the fields, or bytes left over.
pub open spec fn patch_frame_error(d: Seq<u8>, cmd: u16, n: nat) -> Option<PacketParseError> {
    if patch_header_error(d, cmd) is Some {
        patch_header_error(d, cmd)
    } else if d.len() < 4 + n {
        Some(PacketParseError::NotEnoughBytes)
    } else if d.len() > 4 + n {
        Some(PacketParseError::DataStructNotLargeEnough((4 + n) as u64, d.len() as usize))
    } else {
        None
    }
}

/// The error a login-dialect frame gives for a record whose fields, flag
/// included, take `n` bytes. The length field is not checked and bytes
/// after the fields are ignored.
pub open spec fn login_frame_error(d: Seq<u8>, cmd: u16, n: nat) -> Option<PacketParseError> {
    if d.len() < 4 {
        Some(PacketParseError::NotEnoughBytes)
    } else if frame_cmd(d) != cmd {
        Some(PacketParseError::WrongPacketCommand)
    } else if d.len() < 4 + n {
        Some(PacketParseError::NotEnoughBytes)
    } else {
        None
    }
}

/// Checks the header of a patch-dialect frame.
pub fn check_patch_header(data: &Vec<u8>, cmd: u16) -> (r: Result<(), PacketParseError>)
    ensures
        r == as_check(patch_header_error(data@, cmd)),
{
    let len = data.len();
    if len < 4 {
        return Err(PacketParseError::NotEnoughBytes);
    }
    let declared = get_u16(data, 0);
    let found = get_u16(data, 2);
    if found != cmd {
        return Err(PacketParseError::WrongPacketCommand);
    }
    if declared as usize != len {
        return Err(PacketParseError::WrongPacketSize(declared, len));
    }
    Ok(())
}

/// Checks a patch-dialect frame for a record whose fields take `n` bytes.
pub fn check_patch_frame(data: &Vec<u8>, cmd: u16, n: usize) -> (r: Result<(), PacketParseError>)
    requires
        n + 4 <= usize::MAX,
    ensures
        r == as_check(patch_frame_error(data@, cmd, n as nat)),
{
    check_patch_header(data, cmd)?;
    let len = data.len();
    if len < 4 + n {
        return Err(PacketParseError::NotEnoughBytes);
    }
    if len > 4 + n {
        return Err(PacketParseError::DataStructNotLargeEnough((4 + n) as u64, len));
    }
    Ok(())
}

/// Checks a login-dialect frame for a record whose fields take `n` bytes.
pub fn check_login_frame(data: &Vec<u8>, cmd: u16, n: usize) -> (r: Result<(), PacketParseError>)
    requires
        n + 4 <= usize::MAX,
    ensures
        r == as_check(login_frame_error(data@, cmd, n as nat)),
{
    let len = data.len();
    if len < 4 {
        return Err(PacketParseError::NotEnoughBytes);
    }
    if get_u16(data, 2) != cmd {
        return Err(PacketParseError::WrongPacketCommand);
    }
    if len < 4 + n {
        return Err(PacketParseError::NotEnoughBytes);
    }
    Ok(())
}

/// The fields of a patch frame read back as written.
pub proof fn lemma_patch_frame(cmd: u16, body: Seq<u8>)
    requires
        4 + body.len() + pad_len(body.len()) <= 0xffff,
    ensures
        ({
            let f = patch_frame(cmd, body);
            &&& f.len() == 4 + body.len() + pad_len(body.len())
            &&& frame_len(f) == f.len()
            &&& frame_cmd(f) == cmd
            &&& f.subrange(4, 4 + body.len() as int) == body
            &&& f.subrange(4 + body.len() as int, f.len() as int) == zeros(pad_len(body.len()))
        }),
{
    let f = patch_frame(cmd, body);
    let total = (4 + body.len() + pad_len(body.len())) as u16;
    lemma_le16(total);
    lemma_le16(cmd);
    assert(f.subrange(0, 2) =~= le16(total));
    assert(f.subrange(2, 4) =~= le16(cmd));
    assert(f.subrange(4, 4 + body.len() as int) =~= body);
    assert(f.subrange(4 + body.len() as int, f.len() as int) =~= zeros(pad_len(body.len())));
}

/// The fields of a login frame read back as written.
pub proof fn lemma_login_frame(cmd: u16, body: Seq<u8>)
    requires
        4 + body.len() <= 0xffff,
    ensures
        ({
            let f = login_frame(cmd, body);
            &&& f.len() == 4 + body.len()
            &&& frame_len(f) == f.len()
            &&& frame_cmd(f) == cmd
            &&& f.subrange(4, f.len() as int) == body
        }),
{
    let f = login_frame(cmd, body);
    let total = (4 + body.len()) as u16;
    lemma_le16(total);
    lemma_le16(cmd);
    assert(f.subrange(0, 2) =~= le16(total));
    assert(f.subrange(2, 4) =~= le16(cmd));
    assert(f.subrange(4, f.len() as int) =~= body);
}

/// A frame that passes the patch check is the frame of its own body.
pub proof fn lemma_patch_frame_of(d: Seq<u8>, cmd: u16, n: nat)
    requires
        patch_frame_error(d, cmd, n) is None,
        n % 4 == 0,
    ensures
        d == patch_frame(cmd, d.subrange(4, 4 + n as int)),
{
    lemma_u16_le(d.subrange(0, 2));
    lemma_u16_le(d.subrange(2, 4));
    assert(d =~= patch_frame(cmd, d.subrange(4, 4 + n as int)));
}

/// A login frame that passes the check, carries its own length and has no
/// bytes after the fields is the frame of its own body.
pub proof fn lemma_login_frame_of(d: Seq<u8>, cmd: u16, n: nat)
    requires
        login_frame_error(d, cmd, n) is None,
        frame_len(d) == d.len(),
        d.len() == 4 + n,
    ensures
        d == login_frame(cmd, d.subrange(4, 4 + n as int)),
{
    lemma_u16_le(d.subrange(0, 2));
    lemma_u16_le(d.subrange(2, 4));
    assert(d =~= login_frame(cmd, d.subrange(4, 4 + n as int)));
}

} // verus!

verus! {

/// The first `n` bytes of `b`, followed by zeros where `b` is shorter.
pub open spec fn fit(b: Seq<u8>, n: nat) -> Seq<u8> {
    Seq::new(n, |i: int| if i < b.len() { b[i] } else { 0u8 })
}

/// A fixed-size text field holding the UTF-8 bytes of `s`, cut to `N` bytes
/// or filled up with zeros.
pub fn text_field<const N: usize>(s: &str) -> (a: [u8; N])
    ensures
        a@ == fit(s.spec_bytes(), N as nat),
{
    let b = s.as_bytes();
    let mut a = [0u8; N];
    let mut i: usize = 0;
    while i < N
        invariant
            b@ == s.spec_bytes(),
            i <= N,
            forall|k: int| 0 <= k < i ==> a@[k] == fit(b@, N as nat)[k],
        decreases N - i,
    {
        if i < b.len() {
            a[i] = b[i];
        } else {
            a[i] = 0;
        }
        i = i + 1;
    }
    assert(a@ =~= fit(b@, N as nat));
    a
}

/// Appends the first `n` bytes of `src`.
pub fn put_prefix(buf: &mut Vec<u8>, src: &[u8], n: usize)
    requires
        n <= src@.len(),
    ensures
        final(buf)@ == old(buf)@ + src@.subrange(0, n as int),
{
    let mut i: usize = 0;
    while i < n
        invariant
            n <= src@.len(),
            i <= n,
            buf@ == old(buf)@ + src@.subrange(0, i as int),
        decreases n - i,
    {
        buf.push(src[i]);
        i = i + 1;
        assert(buf@ =~= old(buf)@ + src@.subrange(0, i as int));
    }
}

/// Appends `n` zero bytes.
pub fn put_zeros(buf: &mut Vec<u8>, n: usize)
    ensures
        final(buf)@ == old(buf)@ + zeros(n as nat),
{
    let mut i: usize = 0;
    while i < n
        invariant
            i <= n,
            buf@ == old(buf)@ + zeros(i as nat),
        decreases n - i,
    {
        buf.push(0);
        i = i + 1;
        assert(buf@ =~= old(buf)@ + zeros(i as nat));
    }
}

/// Number of zero bytes that bring `n` bytes up to a multiple of four.
pub fn padding_for(n: usize) -> (r: usize)
    ensures
        r == pad_len(n as nat),
{
    (4 - n % 4) % 4
}

/// A prefix of a frame that keeps the header keeps its command.
pub proof fn lemma_frame_prefix(d: Seq<u8>, k: int)
    requires
        4 <= k <= d.len(),
    ensures
        frame_cmd(d.subrange(0, k)) == frame_cmd(d),
        frame_len(d.subrange(0, k)) == frame_len(d),
{
    assert(d.subrange(0, k).subrange(2, 4) =~= d.subrange(2, 4));
    assert(d.subrange(0, k).subrange(0, 2) =~= d.subrange(0, 2));
}

/// A frame with a good header, a body of `m` bytes and zero padding is the
/// patch frame of that body.
pub proof fn lemma_patch_frame_padded(d: Seq<u8>, cmd: u16, m: nat)
    requires
        patch_header_error(d, cmd) is None,
        d.len() == 4 + m + pad_len(m),
        d.subrange(4 + m as int, d.len() as int) == zeros(pad_len(m)),
    ensures
        d == patch_frame(cmd, d.subrange(4, 4 + m as int)),
{
    lemma_u16_le(d.subrange(0, 2));
    lemma_u16_le(d.subrange(2, 4));
    let f = patch_frame(cmd, d.subrange(4, 4 + m as int));
    assert forall|i: int| 4 + m <= i < d.len() implies d[i] == 0u8 by {
        assert(d.subrange(4 + m as int, d.len() as int)[i - 4 - m] == 0u8);
    }
    assert(d =~= f);
}

/// Bytes read as little-endian words, four bytes each.
pub open spec fn words_of(x: Seq<u8>) -> Seq<u32> {
    Seq::new(x.len() / 4, |i: int| u32_le(x.subrange(4 * i, 4 * i + 4)))
}

/// Words laid out as little-endian bytes.
pub open spec fn bytes_of(w: Seq<u32>) -> Seq<u8>
    decreases w.len(),
{
    if w.len() == 0 {
        Seq::empty()
    } else {
        bytes_of(w.drop_last()) + le32(w.last())
    }
}

/// Words laid out as bytes read back as the same words.
pub proof fn lemma_words_of_bytes(w: Seq<u32>)
    ensures
        bytes_of(w).len() == 4 * w.len(),
        words_of(bytes_of(w)) == w,
    decreases w.len(),
{
    if w.len() > 0 {
        let v = w.drop_last();
        lemma_words_of_bytes(v);
        let b = bytes_of(w);
        assert forall|i: int| 0 <= i < w.len() implies #[trigger] words_of(b)[i] == w[i] by {
            if i < w.len() - 1 {
                assert(b.subrange(4 * i, 4 * i + 4) =~= bytes_of(v).subrange(4 * i, 4 * i + 4));
                assert(words_of(bytes_of(v))[i] == v[i]);
            } else {
                assert(b.subrange(4 * i, 4 * i + 4) =~= le32(w.last()));
                lemma_le32(w.last());
            }
        }
        assert(words_of(b) =~= w);
    }
}

/// Bytes read as words and laid out again are the same bytes.
pub proof fn lemma_bytes_of_words(x: Seq<u8>)
    requires
        x.len() % 4 == 0,
    ensures
        bytes_of(words_of(x)) == x,
    decreases x.len(),
{
    if x.len() > 0 {
        let y = x.subrange(0, x.len() - 4);
        lemma_bytes_of_words(y);
        let w = words_of(x);
        assert(w.drop_last() =~= words_of(y)) by {
            assert forall|i: int| 0 <= i < w.len() - 1 implies w.drop_last()[i] == words_of(y)[i] by {
                assert(x.subrange(4 * i, 4 * i + 4) =~= y.subrange(4 * i, 4 * i + 4));
            }
        }
        lemma_u32_le(x.subrange(x.len() - 4, x.len() as int));
        assert(x =~= bytes_of(w));
    }
}

/// Two concatenations with equally long last parts have equal parts.
pub proof fn lemma_peel(a: Seq<u8>, x: Seq<u8>, b: Seq<u8>, y: Seq<u8>)
    requires
        a + x == b + y,
        x.len() == y.len(),
    ensures
        a == b,
        x == y,
{
    assert(a =~= (a + x).subrange(0, a.len() as int));
    assert(b =~= (b + y).subrange(0, b.len() as int));
    assert(x =~= (a + x).subrange(a.len() as int, (a + x).len() as int));
    assert(y =~= (b + y).subrange(b.len() as int, (b + y).len() as int));
}

} // verus!
