//! The Blue Burst block cipher: a Blowfish variant with its own key schedule
//! and a four-round data path.
use vstd::prelude::*;

use crate::codec::{
    bytes_of, get_u32, le32, lemma_bytes_of_words, lemma_words_of_bytes, put_u32, words_of,
};
use crate::crypto::{CipherError, PSOCipher};

verus! {

/// The tables of a BB cipher: 18 P-words and four S-boxes of 256 words.
pub struct BbTables {
    pub p: Seq<u32>,
    pub s: Seq<Seq<u32>>,
}

/// Tables of the right shape.
pub open spec fn bb_shaped(t: BbTables) -> bool {
    &&& t.p.len() == 18
    &&& t.s.len() == 4
    &&& forall|b: int| 0 <= b < 4 ==> #[trigger] t.s[b].len() == 256
}

/// The Feistel function: four S-box lookups keyed by the bytes of `x`.
pub open spec fn bb_f(t: BbTables, x: u32) -> u32 {
    let a = t.s[0][((x >> 24) & 0xFF) as int];
    let b = t.s[1][((x >> 16) & 0xFF) as int];
    let c = t.s[2][((x >> 8) & 0xFF) as int];
    let d = t.s[3][(x & 0xFF) as int];
    (a.wrapping_add(b) ^ c).wrapping_add(d)
}

/// One double round with P-words `i` and `i + 1`.
pub open spec fn bb_round(t: BbTables, l: u32, r: u32, i: int) -> (u32, u32) {
    let l1 = l ^ t.p[i];
    let r1 = (r ^ bb_f(t, l1)) ^ t.p[i + 1];
    (l1 ^ bb_f(t, r1), r1)
}

/// The first `n` double rounds, with P-words `0 .. 2n`.
pub open spec fn bb_rounds(t: BbTables, l: u32, r: u32, n: nat) -> (u32, u32)
    decreases n,
{
    if n == 0 {
        (l, r)
    } else {
        let (a, b) = bb_rounds(t, l, r, (n - 1) as nat);
        bb_round(t, a, b, 2 * (n - 1))
    }
}

/// The sixteen-round block used by the key schedule; the halves come out
/// swapped.
pub open spec fn bb_init_block(t: BbTables, l: u32, r: u32) -> (u32, u32) {
    let (a, b) = bb_rounds(t, l, r, 8);
    (b ^ t.p[17], a ^ t.p[16])
}

/// The four-round block that encrypts data, whitened with P-words 4 and 5.
pub open spec fn bb_encrypt_block(t: BbTables, l: u32, r: u32) -> (u32, u32) {
    let (a, b) = bb_rounds(t, l, r, 2);
    (b ^ t.p[5], a ^ t.p[4])
}

/// One double round run backwards, with P-words `i + 1` and `i`.
pub open spec fn bb_back_round(t: BbTables, l: u32, r: u32, i: int) -> (u32, u32) {
    let l1 = l ^ t.p[i + 1];
    let r1 = (r ^ bb_f(t, l1)) ^ t.p[i];
    (l1 ^ bb_f(t, r1), r1)
}

/// The block that decrypts data: the encryption rounds in reverse.
pub open spec fn bb_decrypt_block(t: BbTables, l: u32, r: u32) -> (u32, u32) {
    let (a, b) = bb_back_round(t, l, r, 4);
    let (c, d) = bb_back_round(t, a, b, 2);
    (d ^ t.p[0], c ^ t.p[1])
}

/// The byte-swapped low half of a P-word folded into its high half.
pub open spec fn bb_mix_p(k: u32) -> u32 {
    let pt = ((k & 0xFF) << 8) | ((k >> 8) & 0xFF);
    ((((k >> 16) ^ pt) << 16) + pt) as u32
}

/// The seed after its three-byte chunks are XORed with 0x19, 0x16, 0x18.
pub open spec fn bb_seed_mask(seed: Seq<u8>) -> Seq<u8> {
    Seq::new(
        seed.len(),
        |j: int|
            seed[j] ^ (if j % 3 == 0 {
                0x19u8
            } else if j % 3 == 1 {
                0x16u8
            } else {
                0x18u8
            }),
    )
}

/// The seed word XORed into P-word `i`: four bytes from `4i`, wrapping round
/// the 48-byte seed, taken big-endian.
pub open spec fn bb_seed_word(s: Seq<u8>, i: int) -> u32 {
    (s[(4 * i + 3) % 48] + 256 * s[(4 * i + 2) % 48] + 65536 * s[(4 * i + 1) % 48] + 16777216 * s[(4
        * i) % 48]) as u32
}

/// Where step `k` of the schedule stores its block: P-words for the first
/// nine steps, then the S-boxes in order.
pub open spec fn bb_store(t: BbTables, k: int, a: u32, b: u32) -> BbTables {
    if k < 9 {
        BbTables { p: t.p.update(2 * k, a).update(2 * k + 1, b), s: t.s }
    } else {
        let m = k - 9;
        let x = m / 128;
        let y = 2 * (m % 128);
        BbTables { p: t.p, s: t.s.update(x, t.s[x].update(y, a).update(y + 1, b)) }
    }
}

/// The key schedule after `j` steps: the tables and the last block. Each
/// step encrypts the last block with the tables as they stand.
pub open spec fn bb_schedule(t0: BbTables, j: nat) -> (BbTables, u32, u32)
    decreases j,
{
    if j == 0 {
        (t0, 0u32, 0u32)
    } else {
        let (t, l, r) = bb_schedule(t0, (j - 1) as nat);
        let (a, b) = bb_init_block(t, l, r);
        (bb_store(t, j - 1, a, b), a, b)
    }
}

/// The tables before the schedule runs: P-words mixed and XORed with the
/// masked seed, S-boxes as given.
pub open spec fn bb_keyed(p: Seq<u32>, s: Seq<Seq<u32>>, seed: Seq<u8>) -> BbTables {
    BbTables {
        p: Seq::new(18, |i: int| bb_mix_p(p[i]) ^ bb_seed_word(bb_seed_mask(seed), i)),
        s,
    }
}

/// The tables of a cipher made from `p`, `s` and `seed`.
pub open spec fn bb_initial(p: Seq<u32>, s: Seq<Seq<u32>>, seed: Seq<u8>) -> BbTables {
    bb_schedule(bb_keyed(p, s, seed), 9 + 512).0
}

/// The S-boxes of an array of arrays, as sequences.
pub open spec fn boxes_view(s: [[u32; 256]; 4]) -> Seq<Seq<u32>> {
    Seq::new(4, |b: int| s@[b]@)
}

/// The words with a zero word added when there is an odd number of them.
pub open spec fn even_words(w: Seq<u32>) -> Seq<u32> {
    if w.len() % 2 == 1 {
        w.push(0)
    } else {
        w
    }
}

/// Each pair of words through the encryption block.
pub open spec fn bb_encrypt_words(t: BbTables, w: Seq<u32>) -> Seq<u32> {
    Seq::new(
        w.len(),
        |i: int|
            if i % 2 == 0 {
                bb_encrypt_block(t, w[i], w[i + 1]).0
            } else {
                bb_encrypt_block(t, w[i - 1], w[i]).1
            },
    )
}

/// Each pair of words through the decryption block.
pub open spec fn bb_decrypt_words(t: BbTables, w: Seq<u32>) -> Seq<u32> {
    Seq::new(
        w.len(),
        |i: int|
            if i % 2 == 0 {
                bb_decrypt_block(t, w[i], w[i + 1]).0
            } else {
                bb_decrypt_block(t, w[i - 1], w[i]).1
            },
    )
}

/// What encryption makes of `x`: its words, padded to an even number,
/// encrypted pair by pair.
pub open spec fn bb_encrypt(t: BbTables, x: Seq<u8>) -> Seq<u8> {
    bytes_of(bb_encrypt_words(t, even_words(words_of(x))))
}

/// What decryption makes of `x`: its words decrypted pair by pair.
pub open spec fn bb_decrypt(t: BbTables, x: Seq<u8>) -> Seq<u8> {
    bytes_of(bb_decrypt_words(t, words_of(x)))
}

/// The Blue Burst cipher: its P-array and S-boxes after the key schedule.
pub struct PSOBBCipher {
    p_array: [u32; 18],
    sbox: [[u32; 256]; 4],
}

impl View for PSOBBCipher {
    type V = BbTables;

    closed spec fn view(&self) -> BbTables {
        BbTables { p: self.p_array@, s: boxes_view(self.sbox) }
    }
}

impl PSOBBCipher {
    /// The Feistel function.
    fn f(&self, x: u32) -> (r: u32)
        ensures
            r == bb_f(self@, x),
    {
        let i0 = ((x >> 24) & 0xFF) as usize;
        let i1 = ((x >> 16) & 0xFF) as usize;
        let i2 = ((x >> 8) & 0xFF) as usize;
        let i3 = (x & 0xFF) as usize;
        assert(((x >> 24) & 0xFF) < 256 && ((x >> 16) & 0xFF) < 256 && ((x >> 8) & 0xFF) < 256 && (x
            & 0xFF) < 256) by (bit_vector);
        let mut k = self.sbox[0][i0];
        k = k.wrapping_add(self.sbox[1][i1]);
        k = k ^ self.sbox[2][i2];
        k = k.wrapping_add(self.sbox[3][i3]);
        k
    }

    #[verifier::spinoff_prover]
    /// Runs the key schedule on the given tables and session seed.
    pub fn new(p: [u32; 18], s: [[u32; 256]; 4], seed: [u8; 48]) -> (r: PSOBBCipher)
        ensures
            r@ == bb_initial(p@, boxes_view(s), seed@),
    {
        let mut seed = seed;
        let ghost seed0 = seed@;
        let mut j: usize = 0;
        while j < 48
            invariant
                j % 3 == 0,
                j <= 48,
                seed0.len() == 48,
                forall|k: int| 0 <= k < j ==> seed@[k] == #[trigger] bb_seed_mask(seed0)[k],
                forall|k: int| j <= k < 48 ==> seed@[k] == seed0[k],
            decreases 48 - j,
        {
            seed[j] = seed[j] ^ 0x19;
            seed[j + 1] = seed[j + 1] ^ 0x16;
            seed[j + 2] = seed[j + 2] ^ 0x18;
            proof {
                assert((j + 1) % 3 == 1 && (j + 2) % 3 == 2);
            }
            j = j + 3;
        }
        assert(seed@ =~= bb_seed_mask(seed0));
        let mut cipher = PSOBBCipher { p_array: p, sbox: s };
        let ghost t0 = bb_keyed(p@, boxes_view(s), seed0);
        let mut i: usize = 0;
        while i < 18
            invariant
                i <= 18,
                seed@ == bb_seed_mask(seed0),
                t0 == bb_keyed(p@, boxes_view(s), seed0),
                cipher.sbox == s,
                forall|k: int| 0 <= k < i ==> cipher.p_array@[k] == #[trigger] t0.p[k],
                forall|k: int| i <= k < 18 ==> cipher.p_array@[k] == p@[k],
            decreases 18 - i,
        {
            let k = cipher.p_array[i];
            let pt: u32 = ((k & 0xFF) << 8) | ((k >> 8) & 0xFF);
            assert(pt < 0x10000 && (((k >> 16) ^ pt) << 16) + pt <= 0xffff_ffff) by (bit_vector)
                requires
                    pt == ((k & 0xFF) << 8) | ((k >> 8) & 0xFF),
            ;
            let mixed = (((k >> 16) ^ pt) << 16) + pt;
            let word: u32 = seed[(i * 4 + 3) % 48] as u32 + 256 * (seed[(i * 4 + 2) % 48] as u32)
                + 65536 * (seed[(i * 4 + 1) % 48] as u32) + 16777216 * (seed[(i * 4) % 48] as u32);
            cipher.p_array[i] = mixed ^ word;
            i = i + 1;
        }
        assert(cipher@ =~= t0) by {
            assert(cipher.p_array@ =~= t0.p);
            assert(boxes_view(cipher.sbox) =~= t0.s);
        }
        let mut l: u32 = 0;
        let mut r: u32 = 0;
        let mut k: usize = 0;
        while k < 9
            invariant
                k <= 9,
                (cipher@, l, r) == bb_schedule(t0, k as nat),
            decreases 9 - k,
        {
            let (a, b) = cipher.init_block(l, r);
            l = a;
            r = b;
            cipher.p_array[2 * k] = l;
            cipher.p_array[2 * k + 1] = r;
            proof {
                let (t, _, _) = bb_schedule(t0, k as nat);
                assert(cipher@ =~= bb_store(t, k as int, a, b)) by {
                    assert(cipher.p_array@ =~= bb_store(t, k as int, a, b).p);
                }
            }
            k = k + 1;
        }
        let mut x: usize = 0;
        while x < 4
            invariant
                x <= 4,
                (cipher@, l, r) == bb_schedule(t0, (9 + 128 * x) as nat),
            decreases 4 - x,
        {
            let mut y: usize = 0;
            while y < 256
                invariant
                    x < 4,
                    y % 2 == 0,
                    y <= 256,
                    (cipher@, l, r) == bb_schedule(t0, (9 + 128 * x + y / 2) as nat),
                decreases 256 - y,
            {
                let (a, b) = cipher.init_block(l, r);
                l = a;
                r = b;
                let mut row = cipher.sbox[x];
                row[y] = l;
                row[y + 1] = r;
                let ghost before = cipher@;
                cipher.sbox[x] = row;
                proof {
                    let m = (9 + 128 * x + y / 2) as nat;
                    assert(m - 9 == 128 * x + y / 2);
                    assert((128 * x + y / 2) / 128 == x && 2 * ((128 * x + y / 2) % 128) == y) by (nonlinear_arith)
                        requires y % 2 == 0, y < 256, x < 4;
                    assert(cipher@ =~= bb_store(before, m as int, a, b)) by {
                        assert(boxes_view(cipher.sbox) =~= bb_store(before, m as int, a, b).s);
                    }
                    assert((9 + 128 * x + (y + 2) / 2) as nat == m + 1);
                }
                y = y + 2;
            }
            x = x + 1;
        }
        cipher
    }

    /// Encrypts one block of two words.
    fn encrypt_block(&self, l: u32, r: u32) -> (res: (u32, u32))
        ensures
            res == bb_encrypt_block(self@, l, r),
    {
        let mut l = l;
        let mut r = r;
        l = l ^ self.p_array[0];
        r = r ^ self.f(l);
        r = r ^ self.p_array[1];
        l = l ^ self.f(r);
        l = l ^ self.p_array[2];
        r = r ^ self.f(l);
        r = r ^ self.p_array[3];
        l = l ^ self.f(r);
        l = l ^ self.p_array[4];
        r = r ^ self.p_array[5];
        proof {
            reveal_with_fuel(bb_rounds, 3);
        }
        (r, l)
    }

    /// Decrypts one block of two words.
    fn decrypt_block(&self, l: u32, r: u32) -> (res: (u32, u32))
        ensures
            res == bb_decrypt_block(self@, l, r),
    {
        let mut l = l;
        let mut r = r;
        l = l ^ self.p_array[5];
        r = r ^ self.f(l);
        r = r ^ self.p_array[4];
        l = l ^ self.f(r);
        l = l ^ self.p_array[3];
        r = r ^ self.f(l);
        r = r ^ self.p_array[2];
        l = l ^ self.f(r);
        l = l ^ self.p_array[1];
        r = r ^ self.p_array[0];
        (r, l)
    }

    /// The sixteen-round block of the key schedule.
    fn init_block(&self, l: u32, r: u32) -> (res: (u32, u32))
        ensures
            res == bb_init_block(self@, l, r),
    {
        let mut l = l;
        let mut r = r;
        let ghost (l0, r0) = (l, r);
        let mut i: usize = 0;
        while i < 16
            invariant
                i % 2 == 0,
                i <= 16,
                (l, r) == bb_rounds(self@, l0, r0, (i / 2) as nat),
            decreases 16 - i,
        {
            l = l ^ self.p_array[i];
            r = r ^ self.f(l);
            r = r ^ self.p_array[i + 1];
            l = l ^ self.f(r);
            proof {
                assert((i + 2) / 2 == i / 2 + 1);
            }
            i = i + 2;
        }
        l = l ^ self.p_array[16];
        r = r ^ self.p_array[17];
        (r, l)
    }
}

/// A multiple of eight bytes holds an even number of words.
proof fn lemma_even_word_count(len: nat)
    requires
        len % 8 == 0,
    ensures
        (len / 4) % 2 == 0,
{
}

/// Two more words taken are eight more bytes.
proof fn lemma_bytes_of_take2(e: Seq<u32>, b: int)
    requires
        0 <= b,
        b + 2 <= e.len(),
    ensures
        bytes_of(e.take(b + 2)) == bytes_of(e.take(b)) + le32(e[b]) + le32(e[b + 1]),
{
    let (t2, t1) = (e.take(b + 2), e.take(b + 1));
    assert(t2.drop_last() =~= t1);
    assert(t1.drop_last() =~= e.take(b));
    assert(t2.last() == e[b + 1] && t1.last() == e[b]);
    assert(bytes_of(t2) == bytes_of(t1) + le32(e[b + 1]));
    assert(bytes_of(t1) == bytes_of(e.take(b)) + le32(e[b]));
}

/// Reads the little-endian words of `data`, whose length is a multiple of four.
fn read_words(data: &Vec<u8>) -> (w: Vec<u32>)
    requires
        data@.len() % 4 == 0,
    ensures
        w@ == words_of(data@),
{
    let len = data.len();
    let mut w: Vec<u32> = Vec::new();
    let mut i: usize = 0;
    while i < len
        invariant
            len == data@.len(),
            len % 4 == 0,
            i % 4 == 0,
            i <= len,
            w@ == words_of(data@).take(i as int / 4),
        decreases len - i,
    {
        let v = get_u32(data, i);
        w.push(v);
        proof {
            assert((i + 4) / 4 == i / 4 + 1);
        }
        assert(w@ =~= words_of(data@).take((i + 4) as int / 4));
        i = i + 4;
    }
    assert(w@ =~= words_of(data@));
    w
}

impl PSOCipher for PSOBBCipher {
    open spec fn header_len(&self) -> usize {
        8
    }

    /// Encrypts the little-endian words of `data` in pairs, a zero word
    /// completing the last pair; the length must be a multiple of four.
    #[verifier::spinoff_prover]
    fn encrypt(&mut self, data: &Vec<u8>) -> (r: Result<Vec<u8>, CipherError>)
        ensures
            final(self)@ == old(self)@,
            data@.len() % 4 != 0 ==> r == Err::<Vec<u8>, CipherError>(CipherError::InvalidSize),
            data@.len() % 4 == 0 ==> (r matches Ok(out) && out@ == bb_encrypt(old(self)@, data@)),
    {
        if data.len() % 4 != 0 {
            return Err(CipherError::InvalidSize);
        }
        let mut words = read_words(data);
        if words.len() % 2 == 1 {
            words.push(0);
        }
        let ghost w = words@;
        assert(w == even_words(words_of(data@)));
        let n = words.len();
        let mut out: Vec<u8> = Vec::new();
        let mut b: usize = 0;
        while b < n
            invariant
                n == w.len(),
                n % 2 == 0,
                b % 2 == 0,
                b <= n,
                words@ == w,
                out@ == bytes_of(bb_encrypt_words(self@, w).take(b as int)),
            decreases n - b,
        {
            let (x, y) = self.encrypt_block(words[b], words[b + 1]);
            let ghost before = out@;
            put_u32(&mut out, x);
            put_u32(&mut out, y);
            proof {
                let e = bb_encrypt_words(self@, w);
                assert((b + 1) % 2 == 1);
                assert(e[b as int] == x && e[b + 1] == y);
                lemma_bytes_of_take2(e, b as int);
            }
            b = b + 2;
        }
        assert(bb_encrypt_words(self@, w).take(n as int) =~= bb_encrypt_words(self@, w));
        Ok(out)
    }

    /// Decrypts the little-endian words of `data` in pairs; the length must
    /// be a multiple of eight.
    #[verifier::spinoff_prover]
    fn decrypt(&mut self, data: &Vec<u8>) -> (r: Result<Vec<u8>, CipherError>)
        ensures
            final(self)@ == old(self)@,
            data@.len() % 8 != 0 ==> r == Err::<Vec<u8>, CipherError>(CipherError::InvalidSize),
            data@.len() % 8 == 0 ==> (r matches Ok(out) && out@ == bb_decrypt(old(self)@, data@)),
    {
        if data.len() % 8 != 0 {
            return Err(CipherError::InvalidSize);
        }
        let words = read_words(data);
        let ghost w = words@;
        let n = words.len();
        proof {
            lemma_even_word_count(data@.len());
        }
        let mut out: Vec<u8> = Vec::new();
        let mut b: usize = 0;
        while b < n
            invariant
                n == w.len(),
                n % 2 == 0,
                b % 2 == 0,
                b <= n,
                words@ == w,
                out@ == bytes_of(bb_decrypt_words(self@, w).take(b as int)),
            decreases n - b,
        {
            let (x, y) = self.decrypt_block(words[b], words[b + 1]);
            let ghost before = out@;
            put_u32(&mut out, x);
            put_u32(&mut out, y);
            proof {
                let e = bb_decrypt_words(self@, w);
                assert((b + 1) % 2 == 1);
                assert(e[b as int] == x && e[b + 1] == y);
                lemma_bytes_of_take2(e, b as int);
            }
            b = b + 2;
        }
        assert(bb_decrypt_words(self@, w).take(n as int) =~= bb_decrypt_words(self@, w));
        Ok(out)
    }

    fn header_size(&self) -> (r: usize) {
        8
    }
}

proof fn lemma_xor(a: u32, b: u32, c: u32)
    by (bit_vector)
    ensures
        (a ^ b) ^ b == a,
        ((a ^ b) ^ c) ^ b == a ^ c,
        (((a ^ b) ^ c) ^ b) ^ c == a,
{
}

/// The decryption block undoes the encryption block.
pub proof fn lemma_block_inverse(t: BbTables, l: u32, r: u32)
    ensures
        ({
            let (c0, c1) = bb_encrypt_block(t, l, r);
            bb_decrypt_block(t, c0, c1) == (l, r)
        }),
{
    reveal_with_fuel(bb_rounds, 3);
    let l1 = l ^ t.p[0];
    let r1 = (r ^ bb_f(t, l1)) ^ t.p[1];
    let l2 = l1 ^ bb_f(t, r1);
    let l3 = l2 ^ t.p[2];
    let r2 = (r1 ^ bb_f(t, l3)) ^ t.p[3];
    let l4 = l3 ^ bb_f(t, r2);
    let (c0, c1) = (r2 ^ t.p[5], l4 ^ t.p[4]);
    assert(bb_encrypt_block(t, l, r) == (c0, c1));
    lemma_xor(r2, t.p[5], 0);
    let x1 = c0 ^ t.p[5];
    assert(x1 == r2);
    lemma_xor(l3, bb_f(t, r2), t.p[4]);
    let y1 = (c1 ^ bb_f(t, x1)) ^ t.p[4];
    assert(y1 == l3);
    lemma_xor(r1, bb_f(t, l3), t.p[3]);
    let x2 = x1 ^ bb_f(t, y1);
    assert(x2 == r1 ^ t.p[3]);
    lemma_xor(r1, t.p[3], 0);
    let x3 = x2 ^ t.p[3];
    assert(x3 == r1);
    lemma_xor(l1, bb_f(t, r1), t.p[2]);
    let y2 = (y1 ^ bb_f(t, x3)) ^ t.p[2];
    assert(y2 == l1);
    lemma_xor(r, bb_f(t, l1), t.p[1]);
    let x4 = x3 ^ bb_f(t, y2);
    assert(x4 == r ^ t.p[1]);
    lemma_xor(l, t.p[0], 0);
    lemma_xor(r, t.p[1], 0);
    assert(bb_decrypt_block(t, c0, c1) == (y2 ^ t.p[0], x4 ^ t.p[1]));
}

/// Two ciphers with the same tables: decrypting what one encrypted gives
/// the input back, followed by four zero bytes when the input held an odd
/// number of words.
#[verifier::spinoff_prover]
pub proof fn lemma_bb_symmetric(t: BbTables, x: Seq<u8>)
    requires
        x.len() % 4 == 0,
    ensures
        bb_encrypt(t, x).len() % 8 == 0,
        bb_decrypt(t, bb_encrypt(t, x)) == (if (x.len() / 4) % 2 == 0 {
            x
        } else {
            x + seq![0u8, 0u8, 0u8, 0u8]
        }),
        bb_decrypt(t, bb_encrypt(t, x)).subrange(0, x.len() as int) == x,
{
    let ew = even_words(words_of(x));
    let e = bb_encrypt_words(t, ew);
    lemma_words_of_bytes(e);
    lemma_even_length(ew.len());
    assert(bb_decrypt_words(t, e) =~= ew) by {
        let d = bb_decrypt_words(t, e);
        assert forall|i: int| 0 <= i < ew.len() implies d[i] == ew[i] by {
            if i % 2 == 0 {
                lemma_block_inverse(t, ew[i], ew[i + 1]);
            } else {
                lemma_block_inverse(t, ew[i - 1], ew[i]);
            }
        }
    }
    lemma_padded_bytes(x);
}

/// The bytes of the padded words are the input, with four zeros more when
/// the input held an odd number of words.
proof fn lemma_padded_bytes(x: Seq<u8>)
    requires
        x.len() % 4 == 0,
    ensures
        bytes_of(even_words(words_of(x))) == (if (x.len() / 4) % 2 == 0 {
            x
        } else {
            x + seq![0u8, 0u8, 0u8, 0u8]
        }),
        bytes_of(even_words(words_of(x))).subrange(0, x.len() as int) == x,
{
    let w = words_of(x);
    let ew = even_words(w);
    lemma_bytes_of_words(x);
    if w.len() % 2 == 1 {
        assert(ew.drop_last() =~= w);
        assert(bytes_of(ew) == x + le32(0));
        assert(le32(0) =~= seq![0u8, 0u8, 0u8, 0u8]);
        assert(bytes_of(ew).subrange(0, x.len() as int) =~= x);
    } else {
        assert(bytes_of(ew).subrange(0, x.len() as int) =~= x);
    }
}

/// Four bytes per word of an even number of words make whole blocks.
proof fn lemma_even_length(n: nat)
    requires
        n % 2 == 0,
    ensures
        (4 * n) % 8 == 0,
{
}

} // verus!
