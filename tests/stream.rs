use crypto::digest::Digest;
use crypto::symmetriccipher::BlockEncryptor;
use hart::ForeveRNG;

fn md5_of(data: &[u8]) -> [u8; 16] {
    let mut h = crypto::md5::Md5::new();
    h.input(data);
    let mut out = [0u8; 16];
    h.result(&mut out);
    out
}

fn aes(key: &[u8; 16], block: &[u8; 16]) -> [u8; 16] {
    let enc = crypto::aessafe::AesSafe128Encryptor::new(key);
    let mut out = [0u8; 16];
    enc.encrypt_block(block, &mut out);
    out
}

fn draw(rng: &mut ForeveRNG, n: usize) -> Vec<u8> {
    let mut v = vec![0u8; n];
    rng.fill_bytes(&mut v);
    v
}

#[test]
fn empty_seed_starts_with_zero_block_then_encrypts_it() {
    let mut rng = ForeveRNG::with_seed(&[]);
    let out = draw(&mut rng, 32);
    assert_eq!(&out[..16], &[0u8; 16]);
    let key = md5_of(&[]);
    assert_eq!(key[0], 0xd4);
    assert_eq!(key[15], 0x7e);
    let next = aes(&key, &[0u8; 16]);
    assert_ne!(next, [0u8; 16]);
    assert_eq!(&out[16..], &next);
}

#[test]
fn seed_is_chained_through_padded_chunks() {
    let seed: Vec<u8> = (1u8..=20).collect();
    let key = md5_of(&seed);
    let mut first = [0u8; 16];
    first.copy_from_slice(&seed[..16]);
    let b1 = aes(&key, &first);
    let mut second = [0u8; 16];
    second[..4].copy_from_slice(&seed[16..]);
    for i in 0..16 {
        second[i] ^= b1[i];
    }
    let b2 = aes(&key, &second);
    let b3 = aes(&key, &b2);
    let mut rng = ForeveRNG::with_seed(&seed);
    let out = draw(&mut rng, 40);
    assert_eq!(&out[..16], &b2);
    assert_eq!(&out[16..32], &b3);
    assert_eq!(&out[32..40], &aes(&key, &b3)[..8]);
}

#[test]
fn long_seeds_are_accepted() {
    let seed: Vec<u8> = (0..200u32).map(|i| (i * 7) as u8).collect();
    let mut a = ForeveRNG::with_seed(&seed);
    let mut b = ForeveRNG::with_seed(&seed);
    assert_eq!(draw(&mut a, 50), draw(&mut b, 50));
}

#[test]
fn trailing_zeroes_change_the_stream() {
    let mut a = ForeveRNG::with_seed(b"ab");
    let mut b = ForeveRNG::with_seed(b"ab\0");
    assert_ne!(draw(&mut a, 16), draw(&mut b, 16));
}

#[test]
fn same_seed_same_stream() {
    let mut a = ForeveRNG::with_seed(b"seed");
    let mut b = ForeveRNG::with_seed(b"seed");
    assert_eq!(draw(&mut a, 100), draw(&mut b, 100));
    assert_eq!(draw(&mut a, 7), draw(&mut b, 7));
}

#[test]
fn pieces_and_one_request_give_the_same_bytes() {
    let mut whole = ForeveRNG::with_seed(b"pieces");
    let all = draw(&mut whole, 120);
    let mut parts = ForeveRNG::with_seed(b"pieces");
    let mut got = Vec::new();
    for n in [1usize, 3, 12, 16, 0, 17, 33, 5, 33] {
        got.extend(draw(&mut parts, n));
    }
    assert_eq!(got, all);
}

#[test]
fn used_bytes_are_not_served_again() {
    let mut rng = ForeveRNG::with_seed(b"again");
    let a = draw(&mut rng, 20);
    let b = draw(&mut rng, 20);
    assert_ne!(a[..16], b[..16]);
    let mut whole = ForeveRNG::with_seed(b"again");
    let all = draw(&mut whole, 40);
    assert_eq!(&all[..20], &a[..]);
    assert_eq!(&all[20..], &b[..]);
}

#[test]
fn integers_are_little_endian() {
    let mut a = ForeveRNG::with_seed(b"ints");
    let mut b = ForeveRNG::with_seed(b"ints");
    let bytes = draw(&mut b, 12);
    let x = a.next_u32();
    let y = a.next_u64();
    assert_eq!(x, u32::from_le_bytes([bytes[0], bytes[1], bytes[2], bytes[3]]));
    let mut eight = [0u8; 8];
    eight.copy_from_slice(&bytes[4..12]);
    assert_eq!(y, u64::from_le_bytes(eight));
}

#[test]
fn forks_on_equal_seeds_are_equal() {
    let parent = ForeveRNG::with_seed(b"parent");
    let mut c1 = parent.reseed(b"Hello");
    let mut c2 = parent.reseed(b"World");
    let mut c3 = parent.reseed(b"Hello");
    let a = draw(&mut c1, 64);
    let b = draw(&mut c2, 64);
    let c = draw(&mut c3, 64);
    assert_eq!(a, c);
    assert_ne!(a, b);
}

#[test]
fn forking_leaves_the_parent_alone() {
    let mut plain = ForeveRNG::with_seed(b"parent");
    let mut forked = ForeveRNG::with_seed(b"parent");
    for i in 0..5u8 {
        let _ = forked.reseed(&[i]);
    }
    assert_eq!(draw(&mut plain, 48), draw(&mut forked, 48));
}

#[test]
fn fork_reads_the_current_block_not_the_cursor() {
    let mut parent = ForeveRNG::with_seed(b"cursor");
    let before = parent.reseed(b"x");
    let _ = draw(&mut parent, 5);
    let after = parent.reseed(b"x");
    let mut before = before;
    let mut after = after;
    assert_eq!(draw(&mut before, 32), draw(&mut after, 32));
    let _ = draw(&mut parent, 20);
    let mut later = parent.reseed(b"x");
    let mut first = ForeveRNG::with_seed(b"cursor").reseed(b"x");
    assert_ne!(draw(&mut later, 32), draw(&mut first, 32));
}

#[test]
fn fork_differs_from_root_on_the_same_seed() {
    let parent = ForeveRNG::with_seed(b"p");
    let mut child = parent.reseed(b"q");
    let mut root = ForeveRNG::with_seed(b"q");
    assert_ne!(draw(&mut child, 16), draw(&mut root, 16));
}
