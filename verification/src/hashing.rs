//! Content hashing: a streaming SHA-256 hasher fed in bounded chunks, and
//! lowercase hex encoding of the digest.
use vstd::prelude::*;

verus! {

/// The SHA-256 digest of a byte sequence, as `ring` computes it. The
/// digest depends on the bytes alone; nothing more is assumed of it than
/// its length.
pub uninterp spec fn sha256_of(bytes: Seq<u8>) -> Seq<u8>;

/// The bytes a `ring` digest context has absorbed so far.
pub uninterp spec fn digest_state(ctx: ring::digest::Context) -> Seq<u8>;

#[verifier::external_type_specification]
#[verifier::external_body]
pub struct ExDigestContext(ring::digest::Context);

/// SHA-256 accepts inputs of fewer than 2^64 bits, so at most this many
/// whole bytes.
pub const MAX_DIGEST_INPUT: u64 = 0x1fffffffffffffff;

/// Relies on `ring::digest::Context::new` with the SHA-256 algorithm: a
/// fresh context has absorbed nothing.
#[verifier::external_body]
fn new_sha256_context() -> (r: ring::digest::Context)
    ensures
        digest_state(r) == Seq::<u8>::empty(),
{
    ring::digest::Context::new(&ring::digest::SHA256)
}

/// Relies on `ring::digest::Context::update`: the context absorbs the given
/// bytes after those it already held.
#[verifier::external_body]
fn sha256_context_update(ctx: &mut ring::digest::Context, data: &[u8])
    ensures
        digest_state(*final(ctx)) == digest_state(*old(ctx)) + data@,
{
    ctx.update(data)
}

/// Relies on `ring::digest::Context::finish` and `Digest::as_ref`: the
/// SHA-256 digest of everything absorbed, 32 bytes long. `finish` fails on
/// inputs of 2^64 bits or more, so the absorbed length is bounded here.
#[verifier::external_body]
fn sha256_context_finish(ctx: ring::digest::Context) -> (r: Vec<u8>)
    requires
        digest_state(ctx).len() <= MAX_DIGEST_INPUT,
    ensures
        r@ == sha256_of(digest_state(ctx)),
        r@.len() == 32,
{
    ctx.finish().as_ref().to_vec()
}

/// A byte value below 16 as a lowercase hex digit.
pub open spec fn spec_hex_digit(n: u8) -> char {
    if n == 0 {
        '0'
    } else if n == 1 {
        '1'
    } else if n == 2 {
        '2'
    } else if n == 3 {
        '3'
    } else if n == 4 {
        '4'
    } else if n == 5 {
        '5'
    } else if n == 6 {
        '6'
    } else if n == 7 {
        '7'
    } else if n == 8 {
        '8'
    } else if n == 9 {
        '9'
    } else if n == 10 {
        'a'
    } else if n == 11 {
        'b'
    } else if n == 12 {
        'c'
    } else if n == 13 {
        'd'
    } else if n == 14 {
        'e'
    } else {
        'f'
    }
}

/// The lowercase hex encoding of a byte sequence: two digits per byte,
/// high nibble first.
pub open spec fn spec_hex_encode(bytes: Seq<u8>) -> Seq<char>
    decreases bytes.len(),
{
    if bytes.len() == 0 {
        Seq::<char>::empty()
    } else {
        seq![spec_hex_digit(bytes[0] / 16), spec_hex_digit(bytes[0] % 16)]
            + spec_hex_encode(bytes.drop_first())
    }
}

/// Relies on `hex::encode`: the lowercase hex digits of the bytes, two per
/// byte, high nibble first.
#[verifier::external_body]
fn hex_encode(bytes: &Vec<u8>) -> (r: String)
    ensures
        r@ == spec_hex_encode(bytes@),
{
    hex::encode(bytes)
}

/// A streaming SHA-256 hasher. The caller feeds a file's content in chunks
/// of its choosing and receives the hex-encoded digest of the whole.
pub struct ContentHasher {
    ctx: ring::digest::Context,
    total: u64,
    fed: Ghost<Seq<u8>>,
}

impl ContentHasher {
    /// The hasher's bookkeeping is sound: the context holds exactly the
    /// bytes fed, within the digest's input bound.
    pub closed spec fn wf(self) -> bool {
        &&& digest_state(self.ctx) == self.fed@
        &&& self.total == self.fed@.len()
        &&& self.fed@.len() <= MAX_DIGEST_INPUT
    }

    /// The bytes fed so far.
    pub closed spec fn bytes_fed(self) -> Seq<u8> {
        self.fed@
    }

    /// A hasher that has absorbed nothing.
    pub fn new() -> (r: ContentHasher)
        ensures
            r.wf(),
            r.bytes_fed() == Seq::<u8>::empty(),
    {
        ContentHasher { ctx: new_sha256_context(), total: 0, fed: Ghost(Seq::empty()) }
    }

    /// Feed one chunk. Returns false, leaving the hasher unchanged, only
    /// when the total fed would pass the digest's input bound.
    pub fn update(&mut self, chunk: &[u8]) -> (ok: bool)
        requires
            old(self).wf(),
        ensures
            final(self).wf(),
            ok ==> final(self).bytes_fed() == old(self).bytes_fed() + chunk@,
            !ok ==> {
                &&& *final(self) == *old(self)
                &&& old(self).bytes_fed().len() + chunk@.len() > MAX_DIGEST_INPUT
            },
    {
        let len = chunk.len() as u64;
        if len <= MAX_DIGEST_INPUT && self.total <= MAX_DIGEST_INPUT - len {
            sha256_context_update(&mut self.ctx, chunk);
            self.total = self.total + len;
            proof {
                self.fed@ = self.fed@ + chunk@;
            }
            true
        } else {
            false
        }
    }

    /// Consume the hasher and return the lowercase hex SHA-256 digest of
    /// everything fed.
    pub fn finish_hex(self) -> (r: String)
        requires
            self.wf(),
        ensures
            r@ == spec_hex_encode(sha256_of(self.bytes_fed())),
            r@.len() == 64,
    {
        let digest = sha256_context_finish(self.ctx);
        proof {
            lemma_hex_encode_len(digest@);
        }
        hex_encode(&digest)
    }
}

/// Hex encoding yields two characters per byte.
pub proof fn lemma_hex_encode_len(bytes: Seq<u8>)
    ensures
        spec_hex_encode(bytes).len() == 2 * bytes.len(),
    decreases bytes.len(),
{
    if bytes.len() > 0 {
        lemma_hex_encode_len(bytes.drop_first());
    }
}

} // verus!
