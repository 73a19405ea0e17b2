//! The digest function: incremental MD5 over a stream of byte chunks,
//! rendered as 32 lowercase hex digits.
//!
//! The MD5 computation itself is done by the `md5` crate behind trusted
//! wrappers; its result is named, not restated. The hex rendering and the
//! chunk-feeding state machine are verified.

use vstd::prelude::*;

verus! {

#[verifier::external_type_specification]
#[verifier::external_body]
pub struct ExMd5Context(md5::Context);

/// The stream of bytes an MD5 context has consumed so far.
pub uninterp spec fn md5_consumed(c: md5::Context) -> Seq<u8>;

/// The 16-byte MD5 digest of a byte stream, named after the `md5` crate's
/// computation.
pub uninterp spec fn md5_of(data: Seq<u8>) -> Seq<u8>;

/// Relies on md5::Context::new: a fresh context has consumed nothing.
#[verifier::external_body]
fn md5_new() -> (r: md5::Context)
    ensures
        md5_consumed(r) == Seq::<u8>::empty(),
{
    md5::Context::new()
}

/// Relies on md5::Context::consume: appends the given bytes to the stream
/// the context has consumed.
#[verifier::external_body]
fn md5_consume(c: &mut md5::Context, data: &[u8])
    ensures
        md5_consumed(*final(c)) == md5_consumed(*old(c)) + data@,
{
    c.consume(data);
}

/// Relies on md5::Context::finalize: returns the 16-byte MD5 digest of the
/// consumed stream (md5::Digest holds `[u8; 16]`), a function of that stream
/// alone.
#[verifier::external_body]
fn md5_finalize(c: md5::Context) -> (r: Vec<u8>)
    ensures
        r@ == md5_of(md5_consumed(c)),
        r@.len() == 16,
{
    c.finalize().0.to_vec()
}

/// The lowercase hex digit for a value below 16: `0`..`9` then `a`..`f`.
pub open spec fn hex_digit(n: u8) -> u8
    recommends
        n < 16,
{
    if n < 10 {
        (48 + n) as u8
    } else {
        (87 + n) as u8
    }
}

/// Lowercase hex rendering of a byte string: two digits per byte, high
/// nibble first.
pub open spec fn hex_of(data: Seq<u8>) -> Seq<u8> {
    Seq::new(
        2 * data.len(),
        |i: int|
            if i % 2 == 0 {
                hex_digit(data[i / 2] / 16)
            } else {
                hex_digit(data[i / 2] % 16)
            },
    )
}

/// The shape every digest this library serves has: 32 lowercase hex digits.
pub open spec fn is_hex_digest(d: Seq<u8>) -> bool {
    d.len() == 32 && forall|i: int|
        0 <= i < 32 ==> (48 <= #[trigger] d[i] <= 57 || 97 <= d[i] <= 102)
}

/// Renders bytes as lowercase hex, two digits per byte.
pub fn to_hex_lower(data: &[u8]) -> (r: Vec<u8>)
    ensures
        r@ == hex_of(data@),
{
    let n: usize = data.len();
    let mut r: Vec<u8> = Vec::new();
    let mut i: usize = 0;
    while i < n
        invariant
            0 <= i <= n == data@.len(),
            r@ == hex_of(data@.take(i as int)),
        decreases n - i,
    {
        let b = data[i];
        let hi = b / 16;
        let lo = b % 16;
        let hi_d: u8 = if hi < 10 { 48 + hi } else { 87 + hi };
        let lo_d: u8 = if lo < 10 { 48 + lo } else { 87 + lo };
        r.push(hi_d);
        r.push(lo_d);
        proof {
            assert(r@ =~= hex_of(data@.take(i + 1)));
        }
        i = i + 1;
    }
    proof {
        assert(data@.take(n as int) =~= data@);
    }
    r
}

/// The read-buffer capacity for streaming a file of the given length
/// through the digest: the whole file at once up to the bound, the bound
/// beyond it, so no allocation grows with the file.
pub const DIGEST_BUFFER_BOUND: u64 = 1000000;

pub fn digest_buffer_capacity(file_len: u64) -> (r: usize)
    ensures
        file_len <= DIGEST_BUFFER_BOUND ==> r == file_len,
        file_len > DIGEST_BUFFER_BOUND ==> r == DIGEST_BUFFER_BOUND,
{
    if file_len <= DIGEST_BUFFER_BOUND {
        file_len as usize
    } else {
        DIGEST_BUFFER_BOUND as usize
    }
}

/// A digest in the course of being computed: feed it the file's bytes in
/// chunks, in order, then finish it to obtain the hex digest of the whole
/// stream.
pub struct DigestJob {
    ctx: md5::Context,
    fed: Ghost<Seq<u8>>,
}

impl DigestJob {
    /// All bytes fed so far, in order.
    pub closed spec fn bytes(self) -> Seq<u8> {
        self.fed@
    }

    pub closed spec fn wf(self) -> bool {
        md5_consumed(self.ctx) == self.fed@
    }

    pub fn new() -> (r: DigestJob)
        ensures
            r.wf(),
            r.bytes() == Seq::<u8>::empty(),
    {
        DigestJob { ctx: md5_new(), fed: Ghost(Seq::empty()) }
    }

    pub fn update(&mut self, chunk: &[u8])
        requires
            old(self).wf(),
        ensures
            final(self).wf(),
            final(self).bytes() == old(self).bytes() + chunk@,
    {
        md5_consume(&mut self.ctx, chunk);
        proof {
            self.fed@ = self.fed@ + chunk@;
        }
    }

    /// Finishes the digest: the MD5 of everything fed, as 32 lowercase hex
    /// digits.
    pub fn finish(self) -> (r: Vec<u8>)
        requires
            self.wf(),
        ensures
            r@ == hex_of(md5_of(self.bytes())),
            r@.len() == 32,
            is_hex_digest(r@),
    {
        let raw = md5_finalize(self.ctx);
        let r = to_hex_lower(raw.as_slice());
        proof {
            lemma_hex_of_is_digest(md5_of(self.bytes()));
        }
        r
    }
}

/// The digest of a byte string held whole in memory: MD5 as lowercase hex.
pub fn digest_hex_of_bytes(data: &[u8]) -> (r: Vec<u8>)
    ensures
        r@ == hex_of(md5_of(data@)),
        is_hex_digest(r@),
{
    let mut job = DigestJob::new();
    job.update(data);
    proof {
        assert(job.bytes() =~= data@);
    }
    job.finish()
}

/// Hex rendering of a 16-byte value is a well-formed digest: 32 bytes, each
/// a lowercase hex digit.
proof fn lemma_hex_of_is_digest(raw: Seq<u8>)
    requires
        raw.len() == 16,
    ensures
        is_hex_digest(hex_of(raw)),
{
    assert forall|i: int| 0 <= i < 32 implies (48 <= #[trigger] hex_of(raw)[i] <= 57 || 97
        <= hex_of(raw)[i] <= 102) by {
        let b = raw[i / 2];
        assert(b / 16 < 16 && b % 16 < 16);
    }
}

} // verus!
