//! The chunked, block-aligned stream decryptor and the byte sources it reads from.
use vstd::prelude::*;

use vstd::arithmetic::div_mod::{lemma_div_is_ordered, lemma_fundamental_div_mod_converse};

use crate::pending::{
    chunk_buffer_contents, chunk_buffer_extend, chunk_buffer_len, chunk_buffer_new,
    chunk_buffer_take_front,
};
use crate::crypto::{
    block8, blowfish_decrypt, blowfish_decrypt_blocks, blowfish_decrypt_ecb, blowfish_encrypt_block,
};

verus! {

/// Number of bytes in one chunk of the obfuscated stream.
pub const CHUNK_LEN: usize = 2048;

/// The chaining value every transformed chunk starts from.
pub const CBC_IV: [u8; 8] = [0, 1, 2, 3, 4, 5, 6, 7];

/// A sequential source of bytes.
pub trait ByteSource {
    /// The bytes the source has yet to yield.
    spec fn rest(&self) -> Seq<u8>;

    /// Reads at most `max` bytes from the front of the source. An empty
    /// result for a positive `max` means that the source is exhausted.
    fn read_some(&mut self, max: usize) -> (r: Result<Vec<u8>, std::io::Error>)
        ensures
            r matches Ok(v) ==> {
                &&& v@.len() <= max
                &&& v@.len() <= old(self).rest().len()
                &&& v@ == old(self).rest().take(v@.len() as int)
                &&& final(self).rest() == old(self).rest().skip(v@.len() as int)
                &&& (max > 0 && old(self).rest().len() > 0 ==> v@.len() > 0)
            },
    ;
}

/// A source over bytes held in memory.
pub struct MemorySource {
    data: Vec<u8>,
    pos: usize,
}

impl MemorySource {
    pub closed spec fn view(&self) -> Seq<u8> {
        self.data@.skip(self.pos as int)
    }

    pub closed spec fn wf(&self) -> bool {
        self.pos <= self.data@.len()
    }

    pub fn new(data: Vec<u8>) -> (r: MemorySource)
        ensures
            r.wf(),
            r@ == data@,
    {
        let r = MemorySource { data, pos: 0 };
        assert(r.data@.skip(0) =~= r.data@);
        r
    }
}

impl MemorySource {
    /// Reads at most `max` bytes from the front of the source.
    pub fn read_front(&mut self, max: usize) -> (r: Vec<u8>)
        requires
            old(self).wf(),
        ensures
            final(self).wf(),
            r@ == old(self)@.take(r@.len() as int),
            final(self)@ == old(self)@.skip(r@.len() as int),
            r@.len() == if max <= old(self)@.len() {
                max as nat
            } else {
                old(self)@.len()
            },
    {
        let avail = self.data.len() - self.pos;
        let n = if max < avail {
            max
        } else {
            avail
        };
        let out = copy_range(&self.data, self.pos, self.pos + n);
        let ghost before = self.data@.skip(self.pos as int);
        self.pos = self.pos + n;
        assert(out@ =~= before.take(n as int));
        assert(self.data@.skip(self.pos as int) =~= before.skip(n as int));
        out
    }
}

impl ByteSource for MemorySource {
    open spec fn rest(&self) -> Seq<u8> {
        if self.wf() {
            self@
        } else {
            Seq::empty()
        }
    }

    fn read_some(&mut self, max: usize) -> (r: Result<Vec<u8>, std::io::Error>) {
        if self.pos > self.data.len() {
            return Ok(Vec::new());
        }
        Ok(self.read_front(max))
    }
}

/// The bytes of `data` from `start` up to `end`.
pub fn copy_range(data: &Vec<u8>, start: usize, end: usize) -> (r: Vec<u8>)
    requires
        start <= end <= data@.len(),
    ensures
        r@ == data@.subrange(start as int, end as int),
{
    let mut out: Vec<u8> = Vec::new();
    let mut i: usize = start;
    while i < end
        invariant
            start <= i <= end,
            end <= data@.len(),
            out@ == data@.subrange(start as int, i as int),
        decreases end - i,
    {
        out.push(data[i]);
        i += 1;
        assert(out@ =~= data@.subrange(start as int, i as int));
    }
    out
}

/// How a request for an exact number of bytes ended.
pub enum ReadExact {
    /// All the bytes that were asked for.
    Full(Vec<u8>),
    /// The source ran out first: everything it had left.
    Eof(Vec<u8>),
    /// The source failed.
    Failed(std::io::Error),
}

/// Reads `len` bytes from `source`, or all it has left if that is fewer.
pub fn try_read_exact<S: ByteSource>(source: &mut S, len: usize) -> (r: ReadExact)
    ensures
        len == 0 ==> r is Full,
        r matches ReadExact::Full(v) ==> {
            &&& old(source).rest().len() >= len
            &&& v@ == old(source).rest().take(len as int)
            &&& final(source).rest() == old(source).rest().skip(len as int)
        },
        r matches ReadExact::Eof(v) ==> {
            &&& old(source).rest().len() < len
            &&& v@ == old(source).rest()
            &&& final(source).rest().len() == 0
        },
{
    let ghost start = source.rest();
    let mut out: Vec<u8> = Vec::new();
    while out.len() < len
        invariant
            out@.len() <= len,
            start == old(source).rest(),
            start == out@ + source.rest(),
        decreases len - out@.len(),
    {
        let ghost pre = source.rest();
        match source.read_some(len - out.len()) {
            Ok(v) => {
                assert(pre =~= v@ + source.rest());
                if v.len() == 0 {
                    assert(start =~= out@);
                    return ReadExact::Eof(out);
                }
                let mut i: usize = 0;
                let ghost out0 = out@;
                while i < v.len()
                    invariant
                        i <= v@.len(),
                        out@ == out0 + v@.take(i as int),
                    decreases v@.len() - i,
                {
                    out.push(v[i]);
                    i += 1;
                    assert(out@ =~= out0 + v@.take(i as int));
                }
                assert(v@.take(v@.len() as int) =~= v@);
                assert(start =~= out@ + source.rest());
            },
            Err(e) => {
                return ReadExact::Failed(e);
            },
        }
    }
    assert(start.take(len as int) =~= out@);
    assert(start.skip(len as int) =~= source.rest());
    ReadExact::Full(out)
}

/// The chaining value XORed into block `j` of a chunk: the fixed starting
/// value for the first block, the previous ciphertext block after that.
pub open spec fn chain(c: Seq<u8>, j: int) -> Seq<u8> {
    if j == 0 {
        CBC_IV@
    } else {
        block8(c, j - 1)
    }
}

/// Cipher-block-chaining decryption of one chunk, chained from the fixed starting value.
pub open spec fn cbc_decrypt(key: Seq<u8>, c: Seq<u8>) -> Seq<u8> {
    Seq::new(c.len(), |i: int| blowfish_decrypt_ecb(key, c)[i] ^ chain(c, i / 8)[i % 8])
}

/// Whether the chunk with this index and length is stored encrypted: every
/// third chunk, counting from the first, unless it is short.
pub open spec fn is_transformed(index: nat, len: nat) -> bool {
    index % 3 == 0 && len == CHUNK_LEN
}

/// The plain bytes of one chunk with the given index.
pub open spec fn decode_chunk(key: Seq<u8>, c: Seq<u8>, index: nat) -> Seq<u8> {
    if is_transformed(index, c.len()) {
        cbc_decrypt(key, c)
    } else {
        c
    }
}

/// The plain bytes of a stream whose first chunk has the given index.
pub open spec fn decode_from(key: Seq<u8>, raw: Seq<u8>, index: nat) -> Seq<u8>
    decreases raw.len(),
{
    if raw.len() <= CHUNK_LEN {
        decode_chunk(key, raw, index)
    } else {
        decode_chunk(key, raw.take(CHUNK_LEN as int), index) + decode_from(
            key,
            raw.skip(CHUNK_LEN as int),
            index + 1,
        )
    }
}

/// The plain bytes of an obfuscated stream.
pub open spec fn decode(key: Seq<u8>, raw: Seq<u8>) -> Seq<u8> {
    decode_from(key, raw, 0)
}

/// The number of chunks, the last one possibly short, in `len` bytes.
pub open spec fn chunk_count(len: nat) -> nat {
    ((len + CHUNK_LEN - 1) / (CHUNK_LEN as int)) as nat
}

/// Decoding keeps the length of the stream.
pub proof fn lemma_decode_len(key: Seq<u8>, raw: Seq<u8>, index: nat)
    ensures
        decode_from(key, raw, index).len() == raw.len(),
    decreases raw.len(),
{
    if raw.len() > CHUNK_LEN {
        lemma_decode_len(key, raw.skip(CHUNK_LEN as int), index + 1);
    }
}

/// Decoding a stream cut at a chunk boundary gives the decoding of the first
/// part followed by the decoding of the second, whose chunks keep their
/// position in the whole: how the reads are sized never changes which chunks
/// are decrypted.
pub proof fn lemma_decode_split(key: Seq<u8>, a: Seq<u8>, b: Seq<u8>, index: nat)
    requires
        a.len() % (CHUNK_LEN as nat) == 0,
    ensures
        decode_from(key, a + b, index) == decode_from(key, a, index) + decode_from(
            key,
            b,
            index + a.len() / (CHUNK_LEN as nat),
        ),
    decreases a.len(),
{
    let n = CHUNK_LEN as int;
    if a.len() == 0 {
        assert(a + b =~= b);
        assert(decode_from(key, a, index) =~= Seq::<u8>::empty());
    } else {
        let rest = a.skip(n);
        assert((a + b).take(n) =~= a.take(n));
        assert((a + b).skip(n) =~= rest + b);
        lemma_decode_split(key, rest, b, index + 1);
        assert(rest.len() / (CHUNK_LEN as nat) == a.len() / (CHUNK_LEN as nat) - 1);
        if a.len() == n {
            assert(a.take(n) =~= a);
            assert(decode_from(key, rest, index + 1) =~= Seq::<u8>::empty());
            if b.len() == 0 {
                assert(a + b =~= a);
            }
        }
    }
}

/// Decrypts in place the full chunk that starts at `start`.
fn decrypt_chunk_in_place(key: &[u8; 16], data: &mut Vec<u8>, start: usize)
    requires
        start + CHUNK_LEN <= old(data)@.len(),
    ensures
        final(data)@ == old(data)@.take(start as int) + cbc_decrypt(
            key@,
            old(data)@.subrange(start as int, start + CHUNK_LEN),
        ) + old(data)@.skip(start + CHUNK_LEN),
{
    let total = data.len();
    let c = copy_range(data, start, start + CHUNK_LEN);
    let plain = blowfish_decrypt_blocks(key, c.as_slice());
    let ghost orig = data@;
    let ghost dec = cbc_decrypt(key@, c@);
    let mut i: usize = 0;
    while i < CHUNK_LEN
        invariant
            start + CHUNK_LEN <= orig.len(),
            orig.len() == total,
            data@.len() == orig.len(),
            c@ == orig.subrange(start as int, start + CHUNK_LEN),
            plain@ == blowfish_decrypt_ecb(key@, c@),
            dec == cbc_decrypt(key@, c@),
            i <= CHUNK_LEN,
            forall|k: int|
                0 <= k < data@.len() ==> #[trigger] data@[k] == if start <= k < start + i {
                    dec[k - start]
                } else {
                    orig[k]
                },
        decreases CHUNK_LEN - i,
    {
        let prev = if i < 8 {
            CBC_IV[i]
        } else {
            c[i - 8]
        };
        assert(prev == chain(c@, i as int / 8)[i as int % 8]);
        data[start + i] = plain[i] ^ prev;
        i += 1;
    }
    assert(data@ =~= orig.take(start as int) + dec + orig.skip(start + CHUNK_LEN));
}

proof fn lemma_chunk_count_add(m: nat, b: nat)
    ensures
        chunk_count(m * (CHUNK_LEN as nat) + b) == m + chunk_count(b),
{
    let n = CHUNK_LEN as int;
    let x = b + n - 1;
    lemma_fundamental_div_mod_converse(m * n + x, n, m + x / n, x % n);
}

/// The bytewise XOR of two 8-byte blocks.
pub open spec fn xor8(a: Seq<u8>, b: Seq<u8>) -> Seq<u8> {
    Seq::new(8, |t: int| a[t] ^ b[t])
}

proof fn lemma_xor_cancel(a: u8, b: u8)
    ensures
        (a ^ b) ^ b == a,
{
    assert((a ^ b) ^ b == a) by (bit_vector);
}

/// Encrypts a full chunk so that `cbc_decrypt` gives it back.
fn encrypt_chunk(key: &[u8; 16], p: &Vec<u8>) -> (r: Vec<u8>)
    requires
        p@.len() == CHUNK_LEN,
    ensures
        r@.len() == CHUNK_LEN,
        cbc_decrypt(key@, r@) == p@,
{
    let mut out: Vec<u8> = Vec::new();
    let mut prev: [u8; 8] = CBC_IV;
    let mut j: usize = 0;
    while j < CHUNK_LEN / 8
        invariant
            p@.len() == CHUNK_LEN,
            j <= CHUNK_LEN / 8,
            out@.len() == 8 * j,
            prev@ == chain(out@, j as int),
            forall|m: int|
                0 <= m < j ==> #[trigger] blowfish_decrypt(key@, block8(out@, m)) == xor8(
                    block8(p@, m),
                    chain(out@, m),
                ),
        decreases CHUNK_LEN / 8 - j,
    {
        let mut blk = [0u8; 8];
        let mut t: usize = 0;
        while t < 8
            invariant
                p@.len() == CHUNK_LEN,
                j < CHUNK_LEN / 8,
                t <= 8,
                forall|k: int| 0 <= k < t ==> blk@[k] == p@[8 * j + k] ^ prev@[k],
            decreases 8 - t,
        {
            blk[t] = p[8 * j + t] ^ prev[t];
            t += 1;
        }
        assert(blk@ =~= xor8(block8(p@, j as int), chain(out@, j as int)));
        let e = blowfish_encrypt_block(key, blk);
        let ghost out0 = out@;
        let mut t: usize = 0;
        while t < 8
            invariant
                t <= 8,
                out@ == out0 + e@.take(t as int),
            decreases 8 - t,
        {
            out.push(e[t]);
            t += 1;
            assert(out@ =~= out0 + e@.take(t as int));
        }
        assert(e@.take(8) =~= e@);
        proof {
            assert forall|m: int| 0 <= m <= j implies #[trigger] block8(out@, m) == if m
                == j {
                e@
            } else {
                block8(out0, m)
            } by {
                assert(block8(out@, m) =~= if m == j {
                    e@
                } else {
                    block8(out0, m)
                });
            }
            assert forall|m: int| 0 <= m <= j implies #[trigger] chain(out@, m) == chain(out0, m) by {
                if m > 0 {
                    assert(block8(out@, m - 1) == block8(out0, m - 1));
                }
            }
        }
        prev = e;
        j += 1;
        proof {
            assert forall|m: int| 0 <= m < j implies #[trigger] blowfish_decrypt(key@, block8(out@, m)) == xor8(
                block8(p@, m),
                chain(out@, m),
            ) by {
                assert(chain(out@, m) == chain(out0, m));
                assert(block8(out@, m) == if m == j - 1 {
                    e@
                } else {
                    block8(out0, m)
                });
            }
        }
    }
    proof {
        assert forall|i: int| 0 <= i < CHUNK_LEN implies #[trigger] cbc_decrypt(key@, out@)[i] == p@[i] by {
            let m = i / 8;
            let t = i % 8;
            assert(blowfish_decrypt(key@, block8(out@, m)) == xor8(block8(p@, m), chain(out@, m)));
            lemma_xor_cancel(p@[i], chain(out@, m)[t]);
        }
        assert(cbc_decrypt(key@, out@) =~= p@);
    }
    out
}

/// The obfuscated form of a plain stream: every third full chunk, counting from
/// the first, encrypted so that decoding gives the stream back.
pub fn obfuscate(key: &[u8; 16], data: &Vec<u8>) -> (r: Vec<u8>)
    ensures
        r@.len() == data@.len(),
        decode(key@, r@) == data@,
{
    let mut out: Vec<u8> = Vec::new();
    let mut pos: usize = 0;
    let mut index: usize = 0;
    assert(decode(key@, Seq::<u8>::empty()) =~= Seq::<u8>::empty());
    while pos < data.len()
        invariant
            pos <= data@.len(),
            pos % CHUNK_LEN == 0 || pos == data@.len(),
            pos < data@.len() ==> pos == index * CHUNK_LEN,
            out@.len() == pos,
            decode(key@, out@) == data@.take(pos as int),
        decreases data@.len() - pos,
    {
        let remaining = data.len() - pos;
        let len = if remaining < CHUNK_LEN {
            remaining
        } else {
            CHUNK_LEN
        };
        let p = copy_range(data, pos, pos + len);
        let c = if len == CHUNK_LEN && index % 3 == 0 {
            encrypt_chunk(key, &p)
        } else {
            p
        };
        proof {
            assert(decode_from(key@, c@, index as nat) == p@);
            lemma_decode_split(key@, out@, c@, 0);
            assert(out@.len() / (CHUNK_LEN as nat) == index);
        }
        let ghost out0 = out@;
        let mut t: usize = 0;
        while t < len
            invariant
                t <= len,
                c@.len() == len,
                out@ == out0 + c@.take(t as int),
            decreases len - t,
        {
            out.push(c[t]);
            t += 1;
            assert(out@ =~= out0 + c@.take(t as int));
        }
        assert(c@.take(len as int) =~= c@);
        assert(data@.take(pos + len) =~= data@.take(pos as int) + p@);
        pos = pos + len;
        index = index + 1;
    }
    assert(data@.take(pos as int) =~= data@);
    out
}

/// Decodes in place a run of whole chunks (the last one possibly short) whose
/// first chunk has index `first`; returns the index after the last chunk.
fn decode_in_place(key: &[u8; 16], data: &mut Vec<u8>, first: u64) -> (r: u64)
    requires
        first + chunk_count(old(data)@.len()) <= u64::MAX,
    ensures
        final(data)@ == decode_from(key@, old(data)@, first as nat),
        r == first + chunk_count(old(data)@.len()),
{
    let ghost orig = data@;
    let ghost count0 = first as nat;
    let ghost ks = key@;
    let mut count = first;
    let mut pos: usize = 0;
    assert(orig.take(0) =~= Seq::<u8>::empty());
    assert(decode_from(ks, Seq::<u8>::empty(), count0) =~= Seq::<u8>::empty());
    while pos < data.len()
        invariant
            ks == key@,
            count0 + chunk_count(orig.len()) <= u64::MAX,
            data@.len() == orig.len(),
            pos <= orig.len(),
            pos % CHUNK_LEN == 0 || pos == orig.len(),
            data@ == decode_from(ks, orig.take(pos as int), count0) + orig.skip(pos as int),
            count == count0 + chunk_count(pos as nat),
        decreases orig.len() - pos,
    {
        let remaining = data.len() - pos;
        let ghost a = orig.take(pos as int);
        proof {
            lemma_chunk_count_add(pos as nat / (CHUNK_LEN as nat), 0);
            lemma_chunk_count_add(pos as nat / (CHUNK_LEN as nat), remaining as nat);
            lemma_decode_len(ks, a, count0);
        }
        if remaining >= CHUNK_LEN {
            let ghost b = orig.subrange(pos as int, pos + CHUNK_LEN);
            proof {
                lemma_decode_split(ks, a, b, count0);
                assert(orig.take(pos + CHUNK_LEN) =~= a + b);
                assert(data@.subrange(pos as int, pos + CHUNK_LEN) =~= b);
            }
            assert(pos as nat == (pos as nat / (CHUNK_LEN as nat)) * (CHUNK_LEN as nat));
            assert(count == count0 + pos as nat / (CHUNK_LEN as nat));
            assert(decode_from(ks, b, count0 + pos as nat / (CHUNK_LEN as nat)) == decode_chunk(
                ks,
                b,
                count0 + pos as nat / (CHUNK_LEN as nat),
            ));
            let ghost before = data@;
            assert(before.take(pos as int) =~= decode_from(ks, a, count0));
            assert(before.skip(pos + CHUNK_LEN) =~= orig.skip(pos + CHUNK_LEN));
            assert(before =~= before.take(pos as int) + b + before.skip(pos + CHUNK_LEN));
            if count % 3 == 0 {
                decrypt_chunk_in_place(key, &mut *data, pos);
                assert(decode_chunk(ks, b, count0 + pos as nat / (CHUNK_LEN as nat)) == cbc_decrypt(ks, b));
                assert(data@ =~= decode_from(ks, a, count0) + decode_chunk(ks, b, count0 + pos as nat / (CHUNK_LEN as nat)) + orig.skip(pos + CHUNK_LEN));
            } else {
                assert(decode_chunk(ks, b, count0 + pos as nat / (CHUNK_LEN as nat)) == b);
                assert(data@ =~= decode_from(ks, a, count0) + decode_chunk(ks, b, count0 + pos as nat / (CHUNK_LEN as nat)) + orig.skip(pos + CHUNK_LEN));
            }
            assert(data@ =~= decode_from(ks, a, count0) + decode_chunk(
                ks,
                b,
                count0 + pos as nat / (CHUNK_LEN as nat),
            ) + orig.skip(pos + CHUNK_LEN));
            proof {
                lemma_chunk_count_add(pos as nat / (CHUNK_LEN as nat), CHUNK_LEN as nat);
            }
            pos = pos + CHUNK_LEN;
            assert(data@ =~= decode_from(ks, orig.take(pos as int), count0) + orig.skip(
                pos as int,
            ));
        } else {
            let ghost b = orig.skip(pos as int);
            proof {
                lemma_decode_split(ks, a, b, count0);
                assert(orig =~= a + b);
            }
            assert(decode_from(ks, b, count0 + a.len() / (CHUNK_LEN as nat)) == b);
            pos = data.len();
            assert(orig.take(pos as int) =~= orig);
            assert(orig.skip(pos as int) =~= Seq::<u8>::empty());
            assert(data@ =~= decode_from(ks, orig.take(pos as int), count0) + orig.skip(
                pos as int,
            ));
        }
        count = count + 1;
    }
    assert(orig.take(orig.len() as int) =~= orig);
    assert(data@ =~= decode_from(ks, orig, count0));
    count
}

/// Hands out the queued bytes followed by the first `need` of `data`, or all of
/// `data` if it is shorter, and queues the rest of `data`.
fn split_delivery(storage: &mut tinyvec::ArrayVec<[u8; 2048]>, data: Vec<u8>, need: usize) -> (r: Vec<
    u8,
>)
    requires
        data@.len() >= need ==> data@.len() - need < CHUNK_LEN,
    ensures
        ({
            let all = chunk_buffer_contents(*old(storage)) + data@;
            let p = chunk_buffer_contents(*old(storage)).len();
            &&& r@.len() == if need <= data@.len() {
                (p + need) as nat
            } else {
                all.len()
            }
            &&& r@ == all.take(r@.len() as int)
            &&& chunk_buffer_contents(*final(storage)) == all.skip(r@.len() as int)
        }),
{
    let ghost all = chunk_buffer_contents(*storage) + data@;
    let mut data = data;
    let pending_len = chunk_buffer_len(storage);
    let mut out = chunk_buffer_take_front(storage, pending_len);
    assert(chunk_buffer_contents(*storage) =~= Seq::<u8>::empty());
    if data.len() >= need {
        let tail = data.split_off(need);
        out.append(&mut data);
        chunk_buffer_extend(storage, tail.as_slice());
        assert(chunk_buffer_contents(*storage) =~= all.skip(out@.len() as int));
    } else {
        out.append(&mut data);
        assert(chunk_buffer_contents(*storage) =~= all.skip(out@.len() as int));
    }
    assert(out@ =~= all.take(out@.len() as int));
    out
}

/// `need` rounded up to a whole number of chunks.
pub open spec fn round_up_to_chunk(need: nat) -> nat {
    if need % (CHUNK_LEN as nat) == 0 {
        need
    } else {
        (need + CHUNK_LEN - need % (CHUNK_LEN as nat)) as nat
    }
}

/// The decisions of the stream decryptor, apart from the source.
///
/// The stream is cut into chunks of `CHUNK_LEN` bytes; every third chunk,
/// counting from the first, is stored Blowfish-encrypted in cipher-block-chaining
/// mode, restarted from a fixed value at each chunk, unless it is the short last
/// chunk. The decoder says how many bytes to fetch for a read (always whole
/// chunks), decrypts what was fetched, and keeps the decrypted bytes that the
/// caller did not ask for yet.
pub struct ChunkDecoder {
    key: [u8; 16],
    count: u64,
    storage: tinyvec::ArrayVec<[u8; 2048]>,
    eof: bool,
    consumed: Ghost<Seq<u8>>,
    delivered: Ghost<Seq<u8>>,
}

impl ChunkDecoder {
    /// The content key the stream is decrypted with.
    pub closed spec fn key(&self) -> Seq<u8> {
        self.key@
    }

    /// Everything fetched from the source so far.
    pub closed spec fn consumed(&self) -> Seq<u8> {
        self.consumed@
    }

    /// Everything handed to the caller so far.
    pub closed spec fn delivered(&self) -> Seq<u8> {
        self.delivered@
    }

    /// Decrypted bytes fetched and not handed out yet.
    pub closed spec fn pending(&self) -> Seq<u8> {
        chunk_buffer_contents(self.storage)
    }

    /// The number of chunks processed so far.
    pub closed spec fn chunks(&self) -> nat {
        self.count as nat
    }

    /// Whether the source came to its end.
    pub closed spec fn at_end(&self) -> bool {
        self.eof
    }

    pub open spec fn wf(&self) -> bool {
        &&& self.delivered() + self.pending() == decode(self.key(), self.consumed())
        &&& self.chunks() == chunk_count(self.consumed().len())
        &&& (!self.at_end() ==> self.consumed().len() % (CHUNK_LEN as nat) == 0)
        &&& self.pending().len() < CHUNK_LEN
    }

    /// How many bytes a read of `n` bytes must fetch, if any: none while the
    /// pending bytes suffice or the source has ended, else what is missing
    /// rounded up to whole chunks.
    pub open spec fn request_len(&self, n: nat) -> Option<nat> {
        if n <= self.pending().len() || self.at_end() {
            None
        } else {
            Some(round_up_to_chunk((n - self.pending().len()) as nat))
        }
    }

    pub fn new(key: [u8; 16]) -> (r: ChunkDecoder)
        ensures
            r.wf(),
            r.key() == key@,
            r.consumed() == Seq::<u8>::empty(),
            r.delivered() == Seq::<u8>::empty(),
            r.pending() == Seq::<u8>::empty(),
            r.chunks() == 0,
            !r.at_end(),
    {
        let r = ChunkDecoder {
            key,
            count: 0,
            storage: chunk_buffer_new(),
            eof: false,
            consumed: Ghost(Seq::empty()),
            delivered: Ghost(Seq::empty()),
        };
        assert(decode(key@, Seq::<u8>::empty()) =~= Seq::<u8>::empty());
        r
    }

    /// The number of chunks processed so far.
    pub fn chunk_counter(&self) -> (r: u64)
        ensures
            r == self.chunks(),
    {
        self.count
    }

    /// How many bytes to fetch for a read of `n` bytes, if any.
    pub fn request(&self, n: usize) -> (r: Option<usize>)
        requires
            self.wf(),
            n <= usize::MAX - CHUNK_LEN,
        ensures
            r is None <==> self.request_len(n as nat) is None,
            r matches Some(t) ==> self.request_len(n as nat) == Some(t as nat),
    {
        let pending_len = chunk_buffer_len(&self.storage);
        if n <= pending_len || self.eof {
            None
        } else {
            let need = n - pending_len;
            if need % CHUNK_LEN == 0 {
                Some(need)
            } else {
                Some(need + (CHUNK_LEN - need % CHUNK_LEN))
            }
        }
    }

    /// Hands out up to `n` pending bytes; for reads that fetch nothing.
    pub fn take_pending(&mut self, n: usize) -> (r: Vec<u8>)
        requires
            old(self).wf(),
            old(self).request_len(n as nat) is None,
        ensures
            final(self).wf(),
            r@ == old(self).pending().take(r@.len() as int),
            r@.len() == if n <= old(self).pending().len() {
                n as nat
            } else {
                old(self).pending().len()
            },
            final(self).pending() == old(self).pending().skip(r@.len() as int),
            final(self).delivered() == old(self).delivered() + r@,
            final(self).consumed() == old(self).consumed(),
            final(self).key() == old(self).key(),
            final(self).chunks() == old(self).chunks(),
            final(self).at_end() == old(self).at_end(),
    {
        let pending_len = chunk_buffer_len(&self.storage);
        let k = if n <= pending_len {
            n
        } else {
            pending_len
        };
        let out = chunk_buffer_take_front(&mut self.storage, k);
        proof {
            self.delivered@ = self.delivered@ + out@;
            assert(self.delivered@ + self.pending() =~= old(self).delivered() + old(self).pending());
        }
        out
    }

    /// Takes the bytes fetched for a read of `n` bytes, fewer than asked only
    /// if the source ended, and hands out the next `n` plain bytes, or all
    /// there are if that is fewer.
    #[verifier::rlimit(30)]
    pub fn accept(&mut self, n: usize, data: Vec<u8>) -> (r: Vec<u8>)
        requires
            old(self).wf(),
            n <= usize::MAX - CHUNK_LEN,
            old(self).request_len(n as nat) is Some,
            data@.len() <= old(self).request_len(n as nat)->0,
            old(self).chunks() + n / CHUNK_LEN + 1 <= u64::MAX,
        ensures
            final(self).wf(),
            final(self).key() == old(self).key(),
            final(self).consumed() == old(self).consumed() + data@,
            final(self).at_end() == (data@.len() < old(self).request_len(n as nat)->0),
            final(self).chunks() == old(self).chunks() + chunk_count(data@.len()),
            ({
                let all = old(self).pending() + decode_from(old(self).key(), data@, old(self).chunks());
                &&& r@.len() == if n <= all.len() {
                    n as nat
                } else {
                    all.len()
                }
                &&& r@ == all.take(r@.len() as int)
                &&& final(self).pending() == all.skip(r@.len() as int)
            }),
            final(self).delivered() == old(self).delivered() + r@,
    {
        let mut data = data;
        let pending_len = chunk_buffer_len(&self.storage);
        let need = n - pending_len;
        let to_read = if need % CHUNK_LEN == 0 {
            need
        } else {
            need + (CHUNK_LEN - need % CHUNK_LEN)
        };
        let ghost orig = data@;
        let ghost count0 = self.count as nat;
        let ghost key = self.key@;
        proof {
            lemma_chunk_count_add(to_read as nat / (CHUNK_LEN as nat), 0);
            lemma_chunk_count_add(0, orig.len());
            lemma_chunk_count_add(0, to_read as nat);
            lemma_div_is_ordered(
                orig.len() + CHUNK_LEN - 1,
                to_read + CHUNK_LEN - 1,
                CHUNK_LEN as int,
            );
            assert(chunk_count(orig.len()) <= chunk_count(to_read as nat));
        }
        self.count = decode_in_place(&self.key, &mut data, self.count);
        if data.len() < to_read {
            self.eof = true;
        }
        proof {
            lemma_decode_split(key, self.consumed@, orig, 0);
            lemma_chunk_count_add(self.consumed@.len() / (CHUNK_LEN as nat), orig.len());
            lemma_decode_len(key, orig, count0);
        }
        let ghost all = old(self).pending() + data@;
        let out = split_delivery(&mut self.storage, data, need);
        proof {
            self.consumed@ = self.consumed@ + orig;
            self.delivered@ = self.delivered@ + out@;
            assert(self.delivered@ + self.pending() =~= decode(key, self.consumed@));
        }
        out
    }
}

/// A reader of the plain bytes of an obfuscated stream held by a byte source.
pub struct Mp3Stream<S: ByteSource> {
    source: S,
    decoder: ChunkDecoder,
}

impl<S: ByteSource> Mp3Stream<S> {
    /// The decoder's state.
    pub closed spec fn decoder(&self) -> ChunkDecoder {
        self.decoder
    }

    /// The bytes the source has yet to yield.
    pub closed spec fn source_rest(&self) -> Seq<u8> {
        self.source.rest()
    }

    /// The decoder is consistent, and a source that ended holds nothing more.
    pub open spec fn wf(&self) -> bool {
        &&& self.decoder().wf()
        &&& (self.decoder().at_end() ==> self.source_rest().len() == 0)
    }

    pub fn new(source: S, key: [u8; 16]) -> (r: Self)
        ensures
            r.wf(),
            r.decoder().key() == key@,
            r.decoder().consumed() == Seq::<u8>::empty(),
            r.decoder().delivered() == Seq::<u8>::empty(),
            r.decoder().pending() == Seq::<u8>::empty(),
            r.decoder().chunks() == 0,
            !r.decoder().at_end(),
            r.source_rest() == source.rest(),
    {
        Mp3Stream { source, decoder: ChunkDecoder::new(key) }
    }

    /// The number of chunks processed so far.
    pub fn chunk_counter(&self) -> (r: u64)
        ensures
            r == self.decoder().chunks(),
    {
        self.decoder.chunk_counter()
    }

    /// Reads the next `n` plain bytes of the stream, or all that are left if
    /// that is fewer. The source is asked for whole chunks only, and only
    /// when the pending bytes do not suffice.
    pub fn read(&mut self, n: usize) -> (r: Result<Vec<u8>, std::io::Error>)
        requires
            old(self).wf(),
            n <= usize::MAX - CHUNK_LEN,
            old(self).decoder().chunks() + n / CHUNK_LEN + 1 <= u64::MAX,
        ensures
            final(self).wf(),
            final(self).decoder().key() == old(self).decoder().key(),
            old(self).decoder().request_len(n as nat) is None ==> {
                &&& r is Ok
                &&& final(self).decoder().consumed() == old(self).decoder().consumed()
                &&& final(self).source_rest() == old(self).source_rest()
            },
            r matches Ok(v) ==> {
                let d = old(self).decoder();
                let d2 = final(self).decoder();
                &&& d2.delivered() == d.delivered() + v@
                &&& v@ == decode(d2.key(), d2.consumed()).subrange(
                    d.delivered().len() as int,
                    (d.delivered().len() + v@.len()) as int,
                )
                &&& v@.len() == if n <= d.pending().len() + old(self).source_rest().len() {
                    n as nat
                } else {
                    d.pending().len() + old(self).source_rest().len()
                }
                &&& d2.consumed() + final(self).source_rest() == d.consumed() + old(
                    self,
                ).source_rest()
                &&& (d.request_len(n as nat) matches Some(t) ==> d2.consumed() == d.consumed()
                    + old(self).source_rest().take(
                    if t <= old(self).source_rest().len() {
                        t as int
                    } else {
                        old(self).source_rest().len() as int
                    },
                ))
                &&& (v@.len() < n ==> d2.at_end() && d2.pending().len() == 0)
            },
            r is Err ==> final(self).decoder().delivered() == old(self).decoder().delivered()
                && final(self).decoder().consumed() == old(self).decoder().consumed(),
    {
        let ghost rest0 = self.source.rest();
        let ghost d = self.decoder;
        proof {
            lemma_decode_len(d.key(), d.consumed(), 0);
        }
        match self.decoder.request(n) {
            None => {
                let v = self.decoder.take_pending(n);
                proof {
                    assert(self.decoder.delivered() + self.decoder.pending() == decode(
                        self.decoder.key(),
                        self.decoder.consumed(),
                    ));
                    assert(v@ =~= decode(self.decoder.key(), self.decoder.consumed()).subrange(
                        d.delivered().len() as int,
                        (d.delivered().len() + v@.len()) as int,
                    ));
                }
                Ok(v)
            },
            Some(t) => {
                let data = match try_read_exact(&mut self.source, t) {
                    ReadExact::Full(v) => v,
                    ReadExact::Eof(v) => v,
                    ReadExact::Failed(e) => {
                        return Err(e);
                    },
                };
                let v = self.decoder.accept(n, data);
                proof {
                    lemma_decode_len(d.key(), data@, d.chunks());
                    assert(self.decoder.consumed() + self.source.rest() =~= d.consumed() + rest0);
                    assert(v@ =~= decode(self.decoder.key(), self.decoder.consumed()).subrange(
                        d.delivered().len() as int,
                        (d.delivered().len() + v@.len()) as int,
                    ));
                }
                Ok(v)
            },
        }
    }
}

/// Once the source has ended and nothing is pending, the bytes handed out are
/// the decoding of everything the source yielded: the whole stream, whatever
/// the sizes of the reads.
pub proof fn lemma_stream_complete<S: ByteSource>(s: Mp3Stream<S>)
    requires
        s.wf(),
        s.decoder().at_end(),
        s.decoder().pending().len() == 0,
    ensures
        s.decoder().delivered() == decode(s.decoder().key(), s.decoder().consumed()),
        s.source_rest().len() == 0,
{
    assert(s.decoder().delivered() =~= s.decoder().delivered() + s.decoder().pending());
}

} // verus!
