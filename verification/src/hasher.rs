use vstd::prelude::*;

verus! {

/// The lowercase hexadecimal MD5 digest of a byte sequence, as the md5
/// crate computes it. The digest is a function of the bytes alone, so it
/// is named here rather than spelled out.
pub uninterp spec fn md5_hex(s: Seq<u8>) -> Seq<u8>;

/// The stream of bytes an md5::Context has been fed so far.
pub uninterp spec fn context_bytes(c: md5::Context) -> Seq<u8>;

#[verifier::external_type_specification]
#[verifier::external_body]
pub struct ExMd5Context(md5::Context);

/// Relies on md5::Context::new: a fresh context has consumed nothing.
#[verifier::external_body]
fn new_context() -> (c: md5::Context)
    ensures
        context_bytes(c) == Seq::<u8>::empty(),
{
    md5::Context::new()
}

/// Relies on md5::Context::consume: appends a chunk to the hashed stream.
#[verifier::external_body]
fn context_consume(c: &mut md5::Context, data: &[u8])
    ensures
        context_bytes(*final(c)) == context_bytes(*old(c)) + data@,
{
    c.consume(data);
}

/// Relies on md5::Context::compute and the LowerHex impl of md5::Digest:
/// the digest of the consumed stream, two lowercase hex digits for each of
/// the 16 digest bytes, 32 in all. A clone is finalized, so the context
/// itself keeps its stream and may consume further bytes.
#[verifier::external_body]
fn context_hex(c: &md5::Context) -> (r: Vec<u8>)
    ensures
        r@ == md5_hex(context_bytes(*c)),
        r@.len() == 32,
{
    format!("{:x}", c.clone().compute()).into_bytes()
}

/// An incremental checksum accumulator. `consume` may be fed chunks of any
/// size, in order; `finalize` yields the digest of everything consumed so
/// far, as lowercase hexadecimal ASCII.
pub struct Hasher {
    ctx: md5::Context,
}

impl Hasher {
    /// All bytes consumed so far, in order.
    pub closed spec fn bytes(self) -> Seq<u8> {
        context_bytes(self.ctx)
    }

    pub fn new() -> (h: Hasher)
        ensures
            h.bytes() == Seq::<u8>::empty(),
    {
        Hasher { ctx: new_context() }
    }

    pub fn consume(&mut self, data: &[u8])
        ensures
            final(self).bytes() == old(self).bytes() + data@,
    {
        context_consume(&mut self.ctx, data);
    }

    pub fn finalize(&self) -> (r: Vec<u8>)
        ensures
            r@ == md5_hex(self.bytes()),
            r@.len() == 32,
    {
        context_hex(&self.ctx)
    }
}

} // verus!
