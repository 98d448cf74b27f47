use pso_proto::crypto::bb::PSOBBCipher;
use pso_proto::crypto::pc::PSOPCCipher;
use pso_proto::crypto::{CipherError, NullCipher, PSOCipher};
use rand::{Rng, RngCore};

#[test]
fn bb_test_crypto() {
    let mut rng = rand::thread_rng();

    let mut p = [0u32; 18];
    let mut s = [[0u32; 256]; 4];
    let mut seed = [0u8; 48];

    rng.fill(&mut p[..]);
    rng.fill(&mut s[0][..]);
    rng.fill(&mut s[1][..]);
    rng.fill(&mut s[2][..]);
    rng.fill(&mut s[3][..]);
    rng.fill(&mut seed[..]);

    let mut cipher_in = PSOBBCipher::new(p, s, seed);
    let mut cipher_out = PSOBBCipher::new(p, s, seed);

    for _ in 0..50 {
        let len = (rng.gen::<u16>() / 4) * 4;

        let mut random_junk = vec![0u8; len as usize];
        rng.fill_bytes(&mut random_junk);

        let enc_data = cipher_in.encrypt(&random_junk).unwrap();
        let orig_data = cipher_out.decrypt(&enc_data).unwrap();
        assert!(random_junk == orig_data[..len as usize].to_vec());
    }
}

#[test]
fn pc_test_crypto() {
    let mut rng = rand::thread_rng();

    let seed: u32 = rng.gen();
    let mut cipher_in = PSOPCCipher::new(seed);
    let mut cipher_out = PSOPCCipher::new(seed);

    for _ in 0..10 {
        let mut random_junk = vec![0u8; 40];
        rng.fill_bytes(&mut random_junk);

        let enc_data = cipher_in.encrypt(&random_junk).unwrap();
        let orig_data = cipher_out.encrypt(&enc_data).unwrap();

        assert!(random_junk == orig_data);
    }
}

#[test]
fn pc_known_keystream() {
    let mut c = PSOPCCipher::new(0x12345678);
    assert_eq!(c.encrypt(&vec![0; 8]).unwrap(), vec![0x96, 0x8b, 0xe8, 0xda, 0xb9, 0x60, 0x30, 0xcb]);
    assert_eq!(c.encrypt(&vec![1, 2, 3, 4]).unwrap(), vec![0x69, 0x4c, 0x4f, 0xaa]);

    let mut z = PSOPCCipher::new(0);
    let out = z.encrypt(&vec![0; 240]).unwrap();
    assert_eq!(&out[232..240], &[0xb9, 0xe2, 0x40, 0xb2, 0x74, 0x59, 0x8d, 0xf0]);
}

#[test]
fn pc_sizes() {
    let mut c = PSOPCCipher::new(7);
    assert!(matches!(c.encrypt(&vec![0; 5]), Err(CipherError::InvalidSize)));
    assert!(matches!(c.decrypt(&vec![0; 3]), Err(CipherError::InvalidSize)));
    assert_eq!(c.header_size(), 4);
    assert_eq!(c.block_size(), 4);
    let mut d = PSOPCCipher::new(7);
    let x = vec![9u8; 12];
    let y = c.encrypt(&x).unwrap();
    assert_ne!(y, x);
    assert_eq!(d.decrypt(&y).unwrap(), x);
}

fn bb_tables() -> ([u32; 18], [[u32; 256]; 4], [u8; 48]) {
    let mut p = [0u32; 18];
    for (i, w) in p.iter_mut().enumerate() {
        *w = 0x01020304u32.wrapping_mul(i as u32).wrapping_add(0x11111111);
    }
    let mut s = [[0u32; 256]; 4];
    for (b, row) in s.iter_mut().enumerate() {
        for (i, w) in row.iter_mut().enumerate() {
            *w = (i as u32).wrapping_mul(0x9E3779B9).wrapping_add((b as u32).wrapping_mul(0x7F4A7C15));
        }
    }
    let mut seed = [0u8; 48];
    for (i, b) in seed.iter_mut().enumerate() {
        *b = i as u8;
    }
    (p, s, seed)
}

#[test]
fn bb_known_blocks() {
    let (p, s, seed) = bb_tables();
    let mut c = PSOBBCipher::new(p, s, seed);
    assert_eq!(c.encrypt(&vec![0; 8]).unwrap(), vec![0x88, 0xd4, 0x70, 0xe1, 0xd4, 0x34, 0xc8, 0x62]);
    let odd = c.encrypt(&vec![1, 2, 3, 4]).unwrap();
    assert_eq!(odd, vec![0xe1, 0x39, 0x62, 0x86, 0x0c, 0xeb, 0xa6, 0xda]);
    assert_eq!(c.decrypt(&odd).unwrap(), vec![1, 2, 3, 4, 0, 0, 0, 0]);
}

#[test]
fn bb_sizes() {
    let (p, s, seed) = bb_tables();
    let mut c = PSOBBCipher::new(p, s, seed);
    assert!(matches!(c.encrypt(&vec![0; 6]), Err(CipherError::InvalidSize)));
    assert!(matches!(c.decrypt(&vec![0; 12]), Err(CipherError::InvalidSize)));
    assert_eq!(c.encrypt(&vec![]).unwrap(), Vec::<u8>::new());
    assert_eq!(c.header_size(), 8);
    assert_eq!(c.block_size(), 8);
}

#[test]
fn null_cipher_is_identity() {
    let mut n = NullCipher {};
    let x = vec![1u8, 2, 3];
    assert_eq!(n.encrypt(&x).unwrap(), x);
    assert_eq!(n.decrypt(&x).unwrap(), x);
    assert_eq!(n.header_size(), 4);
    assert_eq!(n.block_size(), 4);
}
