use vstd::prelude::*;

use sha2::Digest;
use sha2::Sha256;

verus! {

#[verifier::external_type_specification]
#[verifier::external_body]
pub struct ExSha256(sha2::Sha256);

/// The bytes that a SHA-256 hasher has been fed since it was made, in order:
/// the stream of input that its state stands for.
pub uninterp spec fn sha256_absorbed(h: Sha256) -> Seq<u8>;

/// The SHA-256 digest of a byte sequence.
pub uninterp spec fn sha256_of(data: Seq<u8>) -> Seq<u8>;

/// The most bytes a hasher can be fed: it counts the bits it has absorbed in a `u64`.
pub open spec fn sha256_max_input() -> int {
    0x1fff_ffff_ffff_ffff
}

/// The most bytes a hasher can be fed, for callers outside verified code.
pub fn sha256_input_limit() -> (r: u64)
    ensures
        r == sha256_max_input(),
{
    0x1fff_ffff_ffff_ffff
}

/// Calls `<Sha256 as Digest>::new` (sha2 0.8: `Default::default`, the SHA-256
/// initial state); the contract claims that the new hasher has absorbed nothing.
#[verifier::external_body]
fn sha256_new() -> (h: Sha256)
    ensures
        sha256_absorbed(h) == Seq::<u8>::empty(),
{
    <Sha256 as Digest>::new()
}

/// Calls `<Sha256 as Digest>::input`, which feeds `data` to the hasher; the contract
/// claims that the hasher has then absorbed what it had before followed by `data`.
/// The hasher adds `8 * data.len()` to a `u64` bit count, which overflows past the
/// limit that `requires` states.
#[verifier::external_body]
fn sha256_input(h: &mut Sha256, data: &[u8])
    requires
        sha256_absorbed(*old(h)).len() + data@.len() <= sha256_max_input(),
    ensures
        sha256_absorbed(*final(h)) == sha256_absorbed(*old(h)) + data@,
{
    h.input(data)
}

/// Calls `<Sha256 as Digest>::result`, which pads the absorbed stream and returns its
/// digest; the contract claims that the result is the SHA-256 digest of all the bytes
/// the hasher absorbed.
#[verifier::external_body]
fn sha256_result(h: Sha256) -> (r: [u8; 32])
    ensures
        r@ == sha256_of(sha256_absorbed(h)),
{
    h.result().into()
}

/// The SHA-256 digest of `data`.
pub fn sha256(data: &[u8]) -> (r: [u8; 32])
    requires
        data@.len() <= sha256_max_input(),
    ensures
        r@ == sha256_of(data@),
{
    let mut h = sha256_new();
    sha256_input(&mut h, data);
    assert(Seq::<u8>::empty() + data@ =~= data@);
    sha256_result(h)
}

/// Copies `min(dst.len(), src.len())` elements from the front of `src` to the front of
/// `dst`, leaving the rest of `dst` as it was, and returns how many were copied.
pub fn copy_slice<T: Clone>(dst: &mut [T], src: &[T]) -> (n: usize)
    ensures
        n == if old(dst)@.len() < src@.len() { old(dst)@.len() } else { src@.len() },
        final(dst)@.len() == old(dst)@.len(),
        forall|i: int| 0 <= i < n ==> cloned::<T>(src@[i], #[trigger] final(dst)@[i]),
        forall|i: int| n <= i < old(dst)@.len() ==> #[trigger] final(dst)@[i] == old(dst)@[i],
{
    let mut i: usize = 0;
    while i < dst.len() && i < src.len()
        invariant
            dst@.len() == old(dst)@.len(),
            i <= dst@.len(),
            i <= src@.len(),
            forall|j: int| 0 <= j < i ==> cloned::<T>(src@[j], #[trigger] dst@[j]),
            forall|j: int| i <= j < dst@.len() ==> #[trigger] dst@[j] == old(dst)@[j],
        decreases dst@.len() - i,
    {
        dst[i] = src[i].clone();
        i = i + 1;
    }
    i
}


/// The byte sequences held by a vector of buffers.
pub open spec fn buffers(v: Seq<Vec<u8>>) -> Seq<Seq<u8>> {
    v.map_values(|b: Vec<u8>| b@)
}

/// Hands out byte buffers one by one, in order, and feeds each one to a SHA-256
/// hasher as it goes out.
pub struct HashingIter {
    items: Vec<Vec<u8>>,
    pos: usize,
    digest: Sha256,
}

impl HashingIter {
    /// All the buffers, those handed out and those still to come.
    pub closed spec fn all(&self) -> Seq<Seq<u8>> {
        buffers(self.items@)
    }

    /// The buffers handed out so far.
    pub closed spec fn consumed(&self) -> Seq<Seq<u8>> {
        self.all().take(self.pos as int)
    }

    /// The buffers still to come.
    pub closed spec fn remaining(&self) -> Seq<Seq<u8>> {
        self.all().skip(self.pos as int)
    }

    /// The hasher has absorbed exactly the buffers handed out, and can absorb all of them.
    pub closed spec fn wf(&self) -> bool {
        &&& self.pos <= self.items@.len()
        &&& sha256_absorbed(self.digest) == self.consumed().flatten()
        &&& self.all().flatten().len() <= sha256_max_input()
    }

    /// Hands out `items`, hashing each one with a new SHA-256 hasher.
    pub fn new(items: Vec<Vec<u8>>) -> (r: Self)
        requires
            buffers(items@).flatten().len() <= sha256_max_input(),
        ensures
            r.wf(),
            r.all() == buffers(items@),
            r.consumed() == Seq::<Seq<u8>>::empty(),
            r.remaining() == buffers(items@),
    {
        let r = HashingIter { items, pos: 0, digest: sha256_new() };
        assert(r.consumed() =~= Seq::<Seq<u8>>::empty());
        assert(r.remaining() =~= r.all());
        r
    }

    /// The next buffer, after it has been fed to the hasher; `None` when all were handed out.
    pub fn next(&mut self) -> (r: Option<Vec<u8>>)
        requires
            old(self).wf(),
        ensures
            final(self).wf(),
            final(self).all() == old(self).all(),
            old(self).remaining().len() == 0 ==> r is None && final(self).consumed() == old(self).consumed(),
            old(self).remaining().len() > 0 ==> (r matches Some(v) && v@ == old(self).remaining()[0]
                && final(self).consumed() == old(self).consumed().push(v@)
                && final(self).remaining() == old(self).remaining().drop_first()),
    {
        if self.pos < self.items.len() {
            let item = self.items[self.pos].clone();
            assert(item@ =~= self.items@[self.pos as int]@);
            let ghost all = self.all();
            let ghost p = self.pos as int;
            proof {
                assert(all.take(p + 1) =~= all.take(p).push(all[p]));
                assert(all =~= all.take(p + 1) + all.skip(p + 1));
                vstd::seq_lib::lemma_flatten_concat(all.take(p + 1), all.skip(p + 1));
                all.take(p).lemma_flatten_push(all[p]);
            }
            sha256_input(&mut self.digest, item.as_slice());
            self.pos = self.pos + 1;
            assert(self.remaining() =~= old(self).remaining().drop_first());
            Some(item)
        } else {
            None
        }
    }

    /// The SHA-256 digest of all the bytes handed out so far, in order.
    pub fn finish(self) -> (r: [u8; 32])
        requires
            self.wf(),
        ensures
            r@ == sha256_of(self.consumed().flatten()),
    {
        sha256_result(self.digest)
    }
}


/// Once a [`HashingIter`] has handed out every buffer, the buffers it handed out are all
/// of them, so [`HashingIter::finish`] gives the digest of their concatenation, the same
/// as [`sha256`] of that concatenation.
pub proof fn law_drained_hash_covers_all(it: &HashingIter)
    requires
        it.wf(),
        it.remaining().len() == 0,
    ensures
        it.consumed() == it.all(),
{
    assert(it.all().take(it.pos as int) =~= it.all());
}

} // verus!
