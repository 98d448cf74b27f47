//! The PC stream cipher: a subtractive keystream generator over 57 words.
use vstd::prelude::*;

use crate::codec::le32;
use crate::crypto::{CipherError, PSOCipher};

verus! {

/// Number of words in the keystream state.
pub const PC_STREAM_LENGTH: usize = 57;

/// The state of a PC cipher: the stream words and the index of the next
/// word to hand out.
pub struct PcState {
    pub stream: Seq<u32>,
    pub offset: nat,
}

/// Subtracts from each of `count` words starting at `start` the word `ahead`
/// places away, in order, each step seeing the earlier ones.
pub open spec fn pc_pass(s: Seq<u32>, start: int, count: nat, ahead: int) -> Seq<u32>
    decreases count,
{
    if count == 0 {
        s
    } else {
        let t = pc_pass(s, start, (count - 1) as nat, ahead);
        let i = start + count - 1;
        t.update(i, t[i].wrapping_sub(t[i + ahead]))
    }
}

/// One refresh of the stream: words 1..=0x18 lose the word 0x1F ahead, then
/// words 0x19..=0x37 lose the word 0x18 behind.
pub open spec fn pc_update(s: Seq<u32>) -> Seq<u32> {
    pc_pass(pc_pass(s, 1, 0x18, 0x1F), 0x19, 0x1F, -0x18)
}

/// `n` refreshes of the stream.
pub open spec fn pc_update_n(s: Seq<u32>, n: nat) -> Seq<u32>
    decreases n,
{
    if n == 0 {
        s
    } else {
        pc_update(pc_update_n(s, (n - 1) as nat))
    }
}

/// The seeding walk after `k` of its 54 steps: the stream and the two
/// carried words. Step `k` stores the first carried word at `0x15 * k mod 55`.
pub open spec fn pc_seed_walk(seed: u32, k: nat) -> (Seq<u32>, u32, u32)
    decreases k,
{
    if k == 0 {
        (Seq::new(57, |i: int| if i >= 55 { seed } else { 0u32 }), 1u32, seed)
    } else {
        let (s, esi, ebx) = pc_seed_walk(seed, (k - 1) as nat);
        (s.update((0x15 * k) as int % 55, esi), ebx.wrapping_sub(esi), esi)
    }
}

/// The state a cipher starts in for `seed`.
pub open spec fn pc_initial(seed: u32) -> PcState {
    PcState { stream: pc_update_n(pc_seed_walk(seed, 54).0, 5), offset: 1 }
}

/// Draws one keystream word: the state after, and the word.
pub open spec fn pc_next(st: PcState) -> (PcState, u32) {
    let s = if st.offset == 57 {
        PcState { stream: pc_update(st.stream), offset: 1 }
    } else {
        st
    };
    (PcState { stream: s.stream, offset: s.offset + 1 }, s.stream[s.offset as int])
}

/// The state after `n` draws.
pub open spec fn pc_advance(st: PcState, n: nat) -> PcState
    decreases n,
{
    if n == 0 {
        st
    } else {
        pc_next(pc_advance(st, (n - 1) as nat)).0
    }
}

/// The `i`-th keystream word drawn from `st`.
pub open spec fn pc_key(st: PcState, i: nat) -> u32 {
    pc_next(pc_advance(st, i)).1
}

/// `data` with each four-byte word XORed with the next keystream word, in
/// little-endian order.
pub open spec fn pc_crypt(st: PcState, data: Seq<u8>) -> Seq<u8> {
    Seq::new(data.len(), |j: int| data[j] ^ le32(pc_key(st, (j / 4) as nat))[j % 4])
}

/// The PC stream cipher: 57 keystream words and the index of the next one.
pub struct PSOPCCipher {
    stream: [u32; 57],
    offset: u16,
}

impl View for PSOPCCipher {
    type V = PcState;

    closed spec fn view(&self) -> PcState {
        PcState { stream: self.stream@, offset: self.offset as nat }
    }
}

impl PSOPCCipher {
    #[verifier::type_invariant]
    closed spec fn inv(&self) -> bool {
        1 <= self.offset <= 57
    }

    /// Seeds the stream from `seed` and stirs it five times.
    pub fn new(seed: u32) -> (r: PSOPCCipher)
        ensures
            r@ == pc_initial(seed),
    {
        let mut stream = [0u32; 57];
        stream[56] = seed;
        stream[55] = seed;
        let mut esi: u32 = 1;
        let mut ebx: u32 = seed;
        let mut edi: u32 = 0x15;
        proof {
            assert(stream@ =~= pc_seed_walk(seed, 0).0);
        }
        while edi <= 0x46E
            invariant
                edi % 0x15 == 0,
                0x15 <= edi <= 0x46E + 0x15,
                (stream@, esi, ebx) == pc_seed_walk(seed, (edi / 0x15 - 1) as nat),
            decreases 0x46E + 0x15 - edi,
        {
            let pos = (edi % 55) as usize;
            let next_ebx = ebx.wrapping_sub(esi);
            stream[pos] = esi;
            ebx = esi;
            esi = next_ebx;
            proof {
                assert((edi + 0x15) / 0x15 - 1 == edi / 0x15);
            }
            edi = edi + 0x15;
        }
        proof {
            assert(edi == 0x46E + 0x15);
        }
        let mut cipher = PSOPCCipher { stream, offset: 1 };
        let mut n: usize = 0;
        while n < 5
            invariant
                n <= 5,
                cipher.offset == 1,
                cipher.stream@ == pc_update_n(pc_seed_walk(seed, 54).0, n as nat),
            decreases 5 - n,
        {
            cipher.update_stream();
            n = n + 1;
        }
        cipher
    }

    /// Refreshes all stream words in place.
    fn update_stream(&mut self)
        ensures
            final(self).stream@ == pc_update(old(self).stream@),
            final(self).offset == old(self).offset,
    {
        proof {
            use_type_invariant(&*self);
        }
        let ghost start = self.stream@;
        let mut i: usize = 1;
        while i <= 0x18
            invariant
                1 <= i <= 0x19,
                self.offset == old(self).offset,
                1 <= self.offset <= 57,
                start == old(self).stream@,
                self.stream@ == pc_pass(start, 1, (i - 1) as nat, 0x1F),
            decreases 0x19 - i,
        {
            self.stream[i] = self.stream[i].wrapping_sub(self.stream[i + 0x1F]);
            i = i + 1;
        }
        let ghost mid = self.stream@;
        let mut i: usize = 0x19;
        while i <= 0x37
            invariant
                0x19 <= i <= 0x38,
                self.offset == old(self).offset,
                1 <= self.offset <= 57,
                mid == pc_pass(start, 1, 0x18, 0x1F),
                self.stream@ == pc_pass(mid, 0x19, (i - 0x19) as nat, -0x18),
            decreases 0x38 - i,
        {
            self.stream[i] = self.stream[i].wrapping_sub(self.stream[i - 0x18]);
            i = i + 1;
        }
    }

    /// The next keystream word, refreshing the stream when it is used up.
    fn next(&mut self) -> (r: u32)
        ensures
            (final(self)@, r) == pc_next(old(self)@),
    {
        proof {
            use_type_invariant(&*self);
        }
        if self.offset as usize == PC_STREAM_LENGTH {
            self.update_stream();
            self.offset = 1;
        }
        let r = self.stream[self.offset as usize];
        self.offset = self.offset + 1;
        r
    }
}

impl PSOCipher for PSOPCCipher {
    open spec fn header_len(&self) -> usize {
        4
    }

    /// XORs each four-byte word with the next keystream word; the length
    /// must be a multiple of four.
    fn encrypt(&mut self, data: &Vec<u8>) -> (r: Result<Vec<u8>, CipherError>)
        ensures
            data@.len() % 4 != 0 ==> r == Err::<Vec<u8>, CipherError>(CipherError::InvalidSize)
                && final(self)@ == old(self)@,
            data@.len() % 4 == 0 ==> (r matches Ok(out) && out@ == pc_crypt(old(self)@, data@)
                && final(self)@ == pc_advance(old(self)@, data@.len() / 4)),
    {
        let len = data.len();
        if len % 4 != 0 {
            return Err(CipherError::InvalidSize);
        }
        let ghost start = self@;
        let mut out: Vec<u8> = Vec::new();
        let mut i: usize = 0;
        while i < len
            invariant
                len == data@.len(),
                len % 4 == 0,
                i % 4 == 0,
                i <= len,
                self@ == pc_advance(start, (i / 4) as nat),
                out@ == pc_crypt(start, data@).take(i as int),
            decreases len - i,
        {
            let ghost before = self@;
            let k = self.next();
            proof {
                assert(pc_advance(start, (i / 4 + 1) as nat) == pc_next(before).0);
                assert(pc_key(start, (i / 4) as nat) == k);
            }
            out.push(data[i] ^ ((k % 256) as u8));
            out.push(data[i + 1] ^ (((k / 256) % 256) as u8));
            out.push(data[i + 2] ^ (((k / 65536) % 256) as u8));
            out.push(data[i + 3] ^ ((k / 16777216) as u8));
            proof {
                let c = pc_crypt(start, data@);
                assert((i + 1) / 4 == i / 4 && (i + 2) / 4 == i / 4 && (i + 3) / 4 == i / 4);
                assert((i + 1) % 4 == 1 && (i + 2) % 4 == 2 && (i + 3) % 4 == 3);
                assert(out@ =~= c.take(i + 4));
            }
            i = i + 4;
        }
        assert(out@ =~= pc_crypt(start, data@));
        Ok(out)
    }

    /// The same as `encrypt`: XOR undoes itself.
    fn decrypt(&mut self, data: &Vec<u8>) -> (r: Result<Vec<u8>, CipherError>)
        ensures
            data@.len() % 4 != 0 ==> r == Err::<Vec<u8>, CipherError>(CipherError::InvalidSize)
                && final(self)@ == old(self)@,
            data@.len() % 4 == 0 ==> (r matches Ok(out) && out@ == pc_crypt(old(self)@, data@)
                && final(self)@ == pc_advance(old(self)@, data@.len() / 4)),
    {
        self.encrypt(data)
    }

    fn header_size(&self) -> (r: usize) {
        4
    }
}

/// Two ciphers in the same state: decrypting what one encrypted gives the
/// input back, and both end in the same state.
pub proof fn lemma_pc_symmetric(st: PcState, x: Seq<u8>)
    requires
        x.len() % 4 == 0,
    ensures
        pc_crypt(st, pc_crypt(st, x)) == x,
        pc_crypt(st, x).len() == x.len(),
{
    let y = pc_crypt(st, x);
    assert forall|j: int| 0 <= j < x.len() implies #[trigger] pc_crypt(st, y)[j] == x[j] by {
        let k = le32(pc_key(st, (j / 4) as nat))[j % 4];
        let a = x[j];
        assert((a ^ k) ^ k == a) by (bit_vector);
    }
    assert(pc_crypt(st, y) =~= x);
}

} // verus!
