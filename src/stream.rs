//! A reproducible, forkable pseudorandom byte stream.
//!
//! The stream is seeded once, with any number of bytes. Its key is the MD5
//! digest of the seed; its first block is found by running the seed through
//! AES-128 in a chain, chunk by chunk. Output is served from the current
//! block, and each refill encrypts the current block again. None of this is
//! meant to be secure: the primitives are only there because they mix well.

use vstd::prelude::*;

verus! {

/// Bytes in one block of state, and in one chunk of seed.
pub const BLOCK_SZ: usize = 16;

/// The MD5 digest of `data`.
pub uninterp spec fn md5_digest(data: Seq<u8>) -> Seq<u8>;

/// The AES-128 encryption of `block` under `key`.
pub uninterp spec fn aes128_block(key: Seq<u8>, block: Seq<u8>) -> Seq<u8>;

/// Relies on `crypto::md5::Md5` (`input` once, then `result`): the 16-byte
/// MD5 digest of `data`.
#[verifier::external_body]
fn md5(data: &[u8]) -> (r: [u8; 16])
    ensures
        r@ == md5_digest(data@),
{
    let mut hasher = crypto::md5::Md5::new();
    crypto::digest::Digest::input(&mut hasher, data);
    let mut out = [0u8; 16];
    crypto::digest::Digest::result(&mut hasher, &mut out);
    out
}

/// Relies on `crypto::aessafe::AesSafe128Encryptor` (`new` on the key, then
/// `encrypt_block`): one AES-128 block encryption.
#[verifier::external_body]
fn aes128(key: &[u8; 16], block: &[u8; 16]) -> (r: [u8; 16])
    ensures
        r@ == aes128_block(key@, block@),
{
    let enc = crypto::aessafe::AesSafe128Encryptor::new(key);
    let mut out = [0u8; 16];
    crypto::symmetriccipher::BlockEncryptor::encrypt_block(&enc, block, &mut out);
    out
}

/// The block of zeroes that a root stream starts from.
pub open spec fn zero_block() -> Seq<u8> {
    Seq::new(16, |i: int| 0u8)
}

/// Bytewise exclusive or of two blocks.
pub open spec fn xor_block(a: Seq<u8>, b: Seq<u8>) -> Seq<u8> {
    Seq::new(16, |i: int| a[i] ^ b[i])
}

/// How many chunks a seed of `len` bytes is cut into.
pub open spec fn chunk_count(len: nat) -> nat {
    if len % 16 == 0 {
        len / 16
    } else {
        len / 16 + 1
    }
}

/// Chunk `k` of `seed`: sixteen bytes from `16 * k` on, zero-padded past the end.
pub open spec fn seed_chunk(seed: Seq<u8>, k: int) -> Seq<u8> {
    Seq::new(16, |i: int| if 16 * k + i < seed.len() { seed[16 * k + i] } else { 0u8 })
}

/// The block after the first `k` chunks of `seed` are chained into `iv`.
pub open spec fn absorb(key: Seq<u8>, iv: Seq<u8>, seed: Seq<u8>, k: nat) -> Seq<u8>
    decreases k,
{
    if k == 0 {
        iv
    } else {
        aes128_block(key, xor_block(seed_chunk(seed, k - 1), absorb(key, iv, seed, (k - 1) as nat)))
    }
}

/// The block reached from `b` after `k` refills.
pub open spec fn block_after(key: Seq<u8>, b: Seq<u8>, k: nat) -> Seq<u8>
    decreases k,
{
    if k == 0 {
        b
    } else {
        aes128_block(key, block_after(key, b, (k - 1) as nat))
    }
}

/// Byte `p` of the run that starts with block `b` and goes on through its refills.
pub open spec fn run_byte(key: Seq<u8>, b: Seq<u8>, p: nat) -> u8 {
    block_after(key, b, p / 16)[(p % 16) as int]
}

/// What a stream is: its key, its current block, and how many bytes of that
/// block are still unused (the last ones).
pub struct StreamView {
    pub key: Seq<u8>,
    pub block: Seq<u8>,
    pub left: nat,
}

/// The stream seeded with `seed`, starting from block `iv`.
pub open spec fn seeded(iv: Seq<u8>, seed: Seq<u8>) -> StreamView {
    let key = md5_digest(seed);
    StreamView { key, block: absorb(key, iv, seed, chunk_count(seed.len())), left: 16 }
}

/// A child of `parent` on the seed `extra`: the parent's current block is its
/// starting value, whatever of it was used.
pub open spec fn fork(parent: StreamView, extra: Seq<u8>) -> StreamView {
    seeded(parent.block, extra)
}

impl StreamView {
    /// No more bytes are left unused than a block holds.
    pub open spec fn wf(self) -> bool {
        self.left <= 16
    }

    /// Byte `i` of what the stream produces from now on.
    pub open spec fn byte(self, i: nat) -> u8 {
        run_byte(self.key, self.block, (16 - self.left + i) as nat)
    }

    /// The next `n` bytes.
    pub open spec fn bytes(self, n: nat) -> Seq<u8> {
        Seq::new(n, |i: int| self.byte(i as nat))
    }

    /// The state after `n` bytes are drawn in one request: the unused bytes of
    /// the block go first; past them the block is refilled for each further
    /// sixteen bytes, and once more for the last (at most sixteen) of them.
    pub open spec fn advance(self, n: nat) -> StreamView {
        if n == 0 || n < self.left {
            StreamView { left: (self.left - n) as nat, ..self }
        } else {
            let rest = (n - self.left) as nat;
            let refills: nat = if rest == 0 { 1 } else { ((rest - 1) / 16 + 1) as nat };
            let copied = rest - 16 * (refills - 1);
            StreamView {
                block: block_after(self.key, self.block, refills),
                left: (16 - copied) as nat,
                ..self
            }
        }
    }
}

/// Cuts `seed` into zero-padded chunks of sixteen bytes.
pub fn chunks(seed: &[u8]) -> (r: Vec<[u8; BLOCK_SZ]>)
    ensures
        r@.len() == chunk_count(seed@.len()),
        forall|k: int| 0 <= k < r@.len() ==> (#[trigger] r@[k])@ == seed_chunk(seed@, k),
{
    let len = seed.len();
    let count: usize = if len % BLOCK_SZ == 0 { len / BLOCK_SZ } else { len / BLOCK_SZ + 1 };
    let mut res: Vec<[u8; BLOCK_SZ]> = Vec::new();
    let mut k: usize = 0;
    while k < count
        invariant
            len == seed@.len(),
            count == chunk_count(len as nat),
            k <= count,
            res@.len() == k,
            forall|j: int| 0 <= j < k ==> (#[trigger] res@[j])@ == seed_chunk(seed@, j),
        decreases count - k,
    {
        assert(k * 16 < len) by (nonlinear_arith)
            requires k < count, count == chunk_count(len as nat);
        let start = k * BLOCK_SZ;
        let mut chunk = [0u8; BLOCK_SZ];
        let mut i: usize = 0;
        while i < BLOCK_SZ
            invariant
                start == 16 * k,
                start < len,
                len == seed@.len(),
                i <= 16,
                forall|t: int| 0 <= t < i ==> chunk@[t] == seed_chunk(seed@, k as int)[t],
            decreases 16 - i,
        {
            if i < len - start {
                chunk[i] = seed[start + i];
            } else {
                chunk[i] = 0;
            }
            i += 1;
        }
        assert(chunk@ =~= seed_chunk(seed@, k as int));
        res.push(chunk);
        k += 1;
    }
    res
}

/// Exclusive-ors `key` into the front of `data`.
pub fn xor(data: &mut [u8], key: &[u8])
    requires
        key@.len() <= old(data)@.len(),
    ensures
        final(data)@.len() == old(data)@.len(),
        forall|i: int|
            0 <= i < old(data)@.len() ==> #[trigger] final(data)@[i] == if i < key@.len() {
                old(data)@[i] ^ key@[i]
            } else {
                old(data)@[i]
            },
{
    let mut i: usize = 0;
    while i < key.len()
        invariant
            key@.len() <= data@.len(),
            data@.len() == old(data)@.len(),
            i <= key@.len(),
            forall|t: int|
                0 <= t < old(data)@.len() ==> #[trigger] data@[t] == if t < i {
                    old(data)@[t] ^ key@[t]
                } else {
                    old(data)@[t]
                },
        decreases key@.len() - i,
    {
        data[i] = data[i] ^ key[i];
        i += 1;
    }
}

/// One link of the seeding chain: the chunk, xored with the last block, encrypted.
fn seed_round(key: &[u8; BLOCK_SZ], last: &[u8; BLOCK_SZ], seed: [u8; BLOCK_SZ]) -> (r: [u8; BLOCK_SZ])
    ensures
        r@ == aes128_block(key@, xor_block(seed@, last@)),
{
    let mut data = seed;
    xor(&mut data, last);
    assert(data@ =~= xor_block(seed@, last@));
    aes128(key, &data)
}

/// A pseudorandom byte stream that is seeded once, with as much data as
/// wanted, and can be forked into independent children.
pub struct ForeveRNG {
    next: [u8; BLOCK_SZ],
    left: usize,
    key: [u8; BLOCK_SZ],
}

impl View for ForeveRNG {
    type V = StreamView;

    closed spec fn view(&self) -> StreamView {
        StreamView { key: self.key@, block: self.next@, left: self.left as nat }
    }
}

impl ForeveRNG {
    fn new(iv: [u8; BLOCK_SZ], seed: &[u8]) -> (r: ForeveRNG)
        ensures
            r@ == seeded(iv@, seed@),
            r@.wf(),
    {
        let key = md5(seed);
        let parts = chunks(seed);
        let mut data = iv;
        let mut k: usize = 0;
        while k < parts.len()
            invariant
                parts@.len() == chunk_count(seed@.len()),
                forall|j: int| 0 <= j < parts@.len() ==> (#[trigger] parts@[j])@ == seed_chunk(seed@, j),
                key@ == md5_digest(seed@),
                k <= parts@.len(),
                data@ == absorb(key@, iv@, seed@, k as nat),
            decreases parts@.len() - k,
        {
            data = seed_round(&key, &data, parts[k]);
            k += 1;
        }
        ForeveRNG { next: data, left: BLOCK_SZ, key }
    }

    /// A root stream on `seed`.
    pub fn with_seed(seed: &[u8]) -> (r: ForeveRNG)
        ensures
            r@ == seeded(zero_block(), seed@),
            r@.wf(),
    {
        let zero = [0u8; BLOCK_SZ];
        assert(zero@ =~= zero_block());
        Self::new(zero, seed)
    }

    /// A child stream on `new_seed`, started from this stream's current block.
    /// This stream is left as it was: equal seeds give equal children.
    pub fn reseed(&self, new_seed: &[u8]) -> (r: ForeveRNG)
        ensures
            r@ == fork(self@, new_seed@),
            r@.wf(),
    {
        Self::new(self.next, new_seed)
    }
}


/// The little-endian value of `b`.
pub open spec fn le_value(b: Seq<u8>) -> nat
    decreases b.len(),
{
    if b.len() == 0 {
        0
    } else {
        (b[0] + 256 * le_value(b.drop_first())) as nat
    }
}

proof fn lemma_block_after_add(key: Seq<u8>, b: Seq<u8>, m: nat, k: nat)
    ensures
        block_after(key, block_after(key, b, m), k) == block_after(key, b, m + k),
    decreases k,
{
    if k > 0 {
        lemma_block_after_add(key, b, m, (k - 1) as nat);
    }
}

proof fn lemma_run_byte_in_block(key: Seq<u8>, b: Seq<u8>, m: nat, t: nat)
    requires
        t < 16,
    ensures
        run_byte(key, b, 16 * m + t) == block_after(key, b, m)[t as int],
{
    assert((16 * m + t) / 16 == m && (16 * m + t) % 16 == t) by (nonlinear_arith)
        requires t < 16;
}

proof fn lemma_run_byte_shift(key: Seq<u8>, b: Seq<u8>, m: nat, p: nat)
    ensures
        run_byte(key, block_after(key, b, m), p) == run_byte(key, b, p + 16 * m),
{
    assert((p + 16 * m) / 16 == p / 16 + m && (p + 16 * m) % 16 == p % 16) by (nonlinear_arith);
    lemma_block_after_add(key, b, m, p / 16);
}

/// Drawing `n` bytes shifts the stream by `n`: what comes out afterwards is
/// what would have come out from byte `n` on.
pub proof fn lemma_advance_shifts(s: StreamView, n: nat)
    requires
        s.wf(),
    ensures
        s.advance(n).wf(),
        forall|i: nat| #[trigger] s.advance(n).byte(i) == s.byte(i + n),
{
    let a = s.advance(n);
    if n == 0 || n < s.left {
    } else {
        let rest = (n - s.left) as nat;
        let refills: nat = if rest == 0 { 1 } else { ((rest - 1) / 16 + 1) as nat };
        let copied = rest - 16 * (refills - 1);
        assert(0 <= copied <= 16) by (nonlinear_arith)
            requires refills == (if rest == 0 { 1 } else { ((rest - 1) / 16 + 1) as nat }), copied == rest - 16 * (refills - 1);
        assert forall|i: nat| #[trigger] a.byte(i) == s.byte(i + n) by {
            lemma_run_byte_shift(s.key, s.block, refills, (16 - a.left + i) as nat);
        }
    }
}

proof fn lemma_le_value_4(s: Seq<u8>)
    requires
        s.len() == 4,
    ensures
        le_value(s) == s[0] + 256 * s[1] + 65536 * s[2] + 16777216 * s[3],
{
    let s1 = s.drop_first();
    let s2 = s1.drop_first();
    let s3 = s2.drop_first();
    let s4 = s3.drop_first();
    assert(le_value(s4) == 0);
    assert(le_value(s3) == s3[0] + 256 * le_value(s4));
    assert(le_value(s2) == s2[0] + 256 * le_value(s3));
    assert(le_value(s1) == s1[0] + 256 * le_value(s2));
    assert(le_value(s) == s[0] + 256 * le_value(s1));
}

proof fn lemma_le_value_8(s: Seq<u8>)
    requires
        s.len() == 8,
    ensures
        le_value(s) == le_value(s.subrange(0, 4)) + 4294967296 * le_value(s.subrange(4, 8)),
{
    let lo = s.subrange(0, 4);
    let hi = s.subrange(4, 8);
    let s1 = s.drop_first();
    let s2 = s1.drop_first();
    let s3 = s2.drop_first();
    let s4 = s3.drop_first();
    assert(s4 =~= hi);
    assert(le_value(s3) == s3[0] + 256 * le_value(s4));
    assert(le_value(s2) == s2[0] + 256 * le_value(s3));
    assert(le_value(s1) == s1[0] + 256 * le_value(s2));
    assert(le_value(s) == s[0] + 256 * le_value(s1));
    lemma_le_value_4(lo);
}

/// The value of four bytes, least significant first.
fn le_u32(b: &[u8; 4]) -> (r: u32)
    ensures
        r as nat == le_value(b@),
{
    proof {
        lemma_le_value_4(b@);
    }
    b[0] as u32 + 256 * (b[1] as u32) + 65536 * (b[2] as u32) + 16777216 * (b[3] as u32)
}

/// The value of eight bytes, least significant first.
fn le_u64(b: &[u8; 8]) -> (r: u64)
    ensures
        r as nat == le_value(b@),
{
    let lo = [b[0], b[1], b[2], b[3]];
    let hi = [b[4], b[5], b[6], b[7]];
    let l = le_u32(&lo);
    let h = le_u32(&hi);
    proof {
        assert(lo@ =~= b@.subrange(0, 4));
        assert(hi@ =~= b@.subrange(4, 8));
        lemma_le_value_8(b@);
    }
    l as u64 + 4294967296 * (h as u64)
}

/// A stream is a function of its starting block and its seed alone: built
/// twice from equal seeds, it produces equal bytes forever.
pub proof fn lemma_seeded_deterministic(iv: Seq<u8>, a: Seq<u8>, b: Seq<u8>)
    requires
        a == b,
    ensures
        seeded(iv, a) == seeded(iv, b),
        forall|i: nat| #[trigger] seeded(iv, a).byte(i) == seeded(iv, b).byte(i),
{
}

/// Forking reads only the parent's current block, not how much of it was
/// used: parents with equal blocks, forked on equal seeds, give children
/// that produce equal bytes forever.
pub proof fn lemma_fork_deterministic(p: StreamView, q: StreamView, a: Seq<u8>, b: Seq<u8>)
    requires
        p.block == q.block,
        a == b,
    ensures
        fork(p, a) == fork(q, b),
        forall|i: nat| #[trigger] fork(p, a).byte(i) == fork(q, b).byte(i),
{
}

impl ForeveRNG {
    fn refill(&mut self)
        ensures
            final(self)@ == (StreamView {
                block: aes128_block(old(self)@.key, old(self)@.block),
                left: 16,
                ..old(self)@
            }),
    {
        self.next = aes128(&self.key, &self.next);
        self.left = BLOCK_SZ;
    }

    /// Fills `dest` with the stream's next bytes.
    pub fn fill_bytes(&mut self, dest: &mut [u8])
        requires
            old(self)@.wf(),
        ensures
            final(self)@ == old(self)@.advance(old(dest)@.len()),
            final(self)@.wf(),
            final(dest)@ == old(self)@.bytes(old(dest)@.len()),
    {
        let ghost s = self@;
        proof {
            lemma_advance_shifts(s, dest@.len());
        }
        let n = dest.len();
        if n == 0 {
            assert(dest@ =~= s.bytes(0));
            return;
        }
        if n < self.left {
            let start = BLOCK_SZ - self.left;
            let mut i: usize = 0;
            while i < n
                invariant
                    self@ == s,
                    s.wf(),
                    n == dest@.len(),
                    n < self.left,
                    start == 16 - self.left,
                    i <= n,
                    forall|t: int| 0 <= t < i ==> dest@[t] == s.byte(t as nat),
                decreases n - i,
            {
                proof {
                    lemma_run_byte_in_block(s.key, s.block, 0, (start + i) as nat);
                }
                dest[i] = self.next[start + i];
                i += 1;
            }
            self.left = self.left - n;
            assert(dest@ =~= s.bytes(n as nat));
            return;
        }
        // the unused rest of the current block
        let start = BLOCK_SZ - self.left;
        let mut pos: usize = 0;
        while pos < self.left
            invariant
                self@ == s,
                s.wf(),
                n == dest@.len(),
                n >= self.left,
                start == 16 - self.left,
                pos <= self.left,
                forall|t: int| 0 <= t < pos ==> dest@[t] == s.byte(t as nat),
            decreases self.left - pos,
        {
            proof {
                lemma_run_byte_in_block(s.key, s.block, 0, (start + pos) as nat);
            }
            dest[pos] = self.next[start + pos];
            pos += 1;
        }
        let ghost refills: nat = 0;
        // whole blocks, while more than one block is still wanted
        while n - pos > BLOCK_SZ
            invariant
                self@.key == s.key,
                self@.block == block_after(s.key, s.block, refills),
                s.wf(),
                n == dest@.len(),
                pos == s.left + 16 * refills,
                pos <= n,
                refills > 0 ==> pos < n,
                forall|t: int| 0 <= t < pos ==> dest@[t] == s.byte(t as nat),
            decreases n - pos,
        {
            self.refill();
            proof {
                refills = refills + 1;
            }
            let mut i: usize = 0;
            while i < BLOCK_SZ
                invariant
                    self@.key == s.key,
                    self@.block == block_after(s.key, s.block, refills),
                    s.wf(),
                    n == dest@.len(),
                    pos + 16 < n,
                    pos == s.left + 16 * (refills - 1),
                    i <= 16,
                    forall|t: int| 0 <= t < pos + i ==> dest@[t] == s.byte(t as nat),
                decreases 16 - i,
            {
                proof {
                    lemma_run_byte_in_block(s.key, s.block, refills, i as nat);
                    assert(16 - s.left + (pos + i) == 16 * refills + i);
                }
                dest[pos + i] = self.next[i];
                i += 1;
            }
            pos += BLOCK_SZ;
        }
        // one more block, of which only what is still wanted is used
        self.refill();
        proof {
            refills = refills + 1;
        }
        assert(refills > 1 ==> pos < n);
        let final_copy = n - pos;
        let mut i: usize = 0;
        while i < final_copy
            invariant
                self@.key == s.key,
                self@.block == block_after(s.key, s.block, refills),
                s.wf(),
                n == dest@.len(),
                final_copy == n - pos,
                final_copy <= 16,
                pos == s.left + 16 * (refills - 1),
                i <= final_copy,
                forall|t: int| 0 <= t < pos + i ==> dest@[t] == s.byte(t as nat),
            decreases final_copy - i,
        {
            proof {
                lemma_run_byte_in_block(s.key, s.block, refills, i as nat);
                assert(16 - s.left + (pos + i) == 16 * refills + i);
            }
            dest[pos + i] = self.next[i];
            i += 1;
        }
        self.left = BLOCK_SZ - final_copy;
        proof {
            let rest = (n - s.left) as nat;
            let r2: nat = if rest == 0 { 1 } else { ((rest - 1) / 16 + 1) as nat };
            assert(r2 == refills) by (nonlinear_arith)
                requires
                    rest == n - s.left,
                    pos == s.left + 16 * (refills - 1),
                    n - pos <= 16,
                    refills >= 1,
                    refills > 1 ==> pos < n,
                    r2 == (if rest == 0 { 1 } else { ((rest - 1) / 16 + 1) as nat }),
                    n >= pos;
        }
        assert(dest@ =~= s.bytes(n as nat));
    }

    /// The next four bytes, read as a little-endian integer.
    pub fn next_u32(&mut self) -> (r: u32)
        requires
            old(self)@.wf(),
        ensures
            r as nat == le_value(old(self)@.bytes(4)),
            final(self)@ == old(self)@.advance(4),
            final(self)@.wf(),
    {
        let mut bytes = [0u8; 4];
        self.fill_bytes(&mut bytes);
        le_u32(&bytes)
    }

    /// The next eight bytes, read as a little-endian integer.
    pub fn next_u64(&mut self) -> (r: u64)
        requires
            old(self)@.wf(),
        ensures
            r as nat == le_value(old(self)@.bytes(8)),
            final(self)@ == old(self)@.advance(8),
            final(self)@.wf(),
    {
        let mut bytes = [0u8; 8];
        self.fill_bytes(&mut bytes);
        le_u64(&bytes)
    }
}

} // verus!
