//! The content hasher: a streaming SHA-1 digest of a byte stream.

use vstd::prelude::*;

verus! {

/// The SHA-1 digest (20 bytes) of a byte sequence. It is a pure function
/// of the bytes alone — never of the path a file had or of the run — which
/// is what makes content digests usable as duplicate keys.
pub uninterp spec fn sha1_of(data: Seq<u8>) -> Seq<u8>;

#[verifier::external_type_specification]
#[verifier::external_body]
pub struct ExSha1(crypto::sha1::Sha1);

/// An incremental digest computation: bytes are fed in chunks, and the
/// digest of everything fed is taken at the end. The view is the sequence
/// of bytes consumed so far.
pub(crate) struct StreamHasher {
    inner: crypto::sha1::Sha1,
    fed: Ghost<Seq<u8>>,
}

impl View for StreamHasher {
    type V = Seq<u8>;

    closed spec fn view(&self) -> Seq<u8> {
        self.fed@
    }
}

/// Relies on crypto::sha1::Sha1::new: a fresh digest state that has
/// consumed no bytes.
#[verifier::external_body]
fn sha1_new() -> crypto::sha1::Sha1 {
    crypto::sha1::Sha1::new()
}

impl StreamHasher {
    /// A hasher that has consumed nothing yet.
    pub(crate) fn new() -> (h: StreamHasher)
        ensures
            h@ == Seq::<u8>::empty(),
    {
        StreamHasher { inner: sha1_new(), fed: Ghost(Seq::empty()) }
    }

    /// Relies on crypto::digest::Digest::input for Sha1, which appends the
    /// chunk to the stream being digested. Its length counter holds bits in
    /// a u64 and aborts past that, so the total stream must stay under
    /// 2^61 bytes.
    #[verifier::external_body]
    pub(crate) fn input(&mut self, chunk: &[u8])
        requires
            old(self)@.len() + chunk@.len() < 0x2000000000000000,
        ensures
            final(self)@ == old(self)@ + chunk@,
    {
        crypto::digest::Digest::input(&mut self.inner, chunk);
    }

    /// Relies on crypto::digest::Digest::result for Sha1: the finished
    /// digest is 160 bits — 20 bytes — and depends on the fed bytes alone.
    #[verifier::external_body]
    pub(crate) fn finish(self) -> (digest: Vec<u8>)
        ensures
            digest@ == sha1_of(self@),
            digest@.len() == 20,
    {
        let mut inner = self.inner;
        let mut out = [0u8; 20];
        crypto::digest::Digest::result(&mut inner, &mut out);
        out.to_vec()
    }
}

/// Digest a whole byte buffer, streaming it through the hasher in
/// 4096-byte chunks as a file reader would hand it over.
pub fn hash_bytes(data: &Vec<u8>) -> (digest: Vec<u8>)
    requires
        data@.len() < 0x2000000000000000,
    ensures
        digest@ == sha1_of(data@),
        digest@.len() == 20,
{
    let mut h = StreamHasher::new();
    proof {
        assert(h@ =~= data@.subrange(0, 0));
    }
    let mut i: usize = 0;
    while i < data.len()
        invariant
            i <= data.len(),
            h@ == data@.subrange(0, i as int),
            data@.len() < 0x2000000000000000,
        decreases data.len() - i,
    {
        let end = if data.len() - i > 4096 {
            i + 4096
        } else {
            data.len()
        };
        let chunk = vstd::slice::slice_subrange(data.as_slice(), i, end);
        h.input(chunk);
        proof {
            assert(data@.subrange(0, i as int) + data@.subrange(i as int, end as int)
                =~= data@.subrange(0, end as int));
        }
        i = end;
    }
    proof {
        assert(data@.subrange(0, data@.len() as int) =~= data@);
    }
    h.finish()
}

/// Hashing the same content twice yields the identical digest: the digest
/// is a function of the bytes, not of the path that held them or of the
/// run that read them.
pub proof fn lemma_digest_deterministic(a: Seq<u8>, b: Seq<u8>)
    requires
        a == b,
    ensures
        sha1_of(a) == sha1_of(b),
{
}

} // verus!
