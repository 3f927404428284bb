use vstd::prelude::*;

use crate::eviction_map::EvictionMapValue;

verus! {

/// A buffer of `n` zero elements (the bit pattern of `0.0`).
pub open spec fn zeros(n: nat) -> Seq<u32> {
    Seq::new(n, |i: int| 0u32)
}

/// An entry whose buffer has not been given a fixed layout yet.
pub struct DynamicEmbeddingEntry {
    pub inner: Vec<u32>,
    pub embedding_dim: usize,
    pub sign: u64,
}

/// A borrowed view of an entry's buffer and layout.
pub struct PersiaEmbeddingEntryRef<'a> {
    pub inner: &'a [u32],
    pub embedding_dim: usize,
    pub sign: u64,
}

/// An exclusively borrowed view of an entry's buffer and layout.
pub struct PersiaEmbeddingEntryMut<'a> {
    pub inner: &'a mut [u32],
    pub embedding_dim: usize,
    pub sign: u64,
}

/// An embedding entry: one contiguous buffer whose first `embedding_dim`
/// elements are the trainable weights and whose remaining elements are the
/// optimizer's private state.
#[derive(Clone, Debug)]
pub struct HashMapEmbeddingEntry {
    inner: Vec<u32>,
    embedding_dim: usize,
    sign: u64,
}

impl HashMapEmbeddingEntry {
    /// The whole buffer, weights then optimizer state.
    pub closed spec fn buffer(&self) -> Seq<u32> {
        self.inner@
    }

    pub closed spec fn spec_embedding_dim(&self) -> nat {
        self.embedding_dim as nat
    }

    pub closed spec fn spec_sign(&self) -> u64 {
        self.sign
    }

    /// The weight region never extends past the buffer.
    pub open spec fn wf(&self) -> bool {
        self.spec_embedding_dim() <= self.buffer().len()
    }

    pub open spec fn emb_view(&self) -> Seq<u32> {
        self.buffer().subrange(0, self.spec_embedding_dim() as int)
    }

    pub open spec fn opt_view(&self) -> Seq<u32> {
        self.buffer().subrange(self.spec_embedding_dim() as int, self.buffer().len() as int)
    }

    /// Builds an entry from freshly sampled weights, followed by `require_space`
    /// zeroed optimizer-state elements.
    pub fn new(emb: Vec<u32>, require_space: usize, sign: u64) -> (r: Self)
        requires
            emb@.len() + require_space <= usize::MAX,
        ensures
            r.wf(),
            r.spec_embedding_dim() == emb@.len(),
            r.spec_sign() == sign,
            r.buffer() == emb@ + zeros(require_space as nat),
    {
        let embedding_dim = emb.len();
        let mut inner = emb;
        let mut i: usize = 0;
        while i < require_space
            invariant
                i <= require_space,
                inner@ == emb@ + zeros(i as nat),
            decreases require_space - i,
        {
            inner.push(0u32);
            i = i + 1;
            assert(inner@ =~= emb@ + zeros(i as nat));
        }
        Self { inner, embedding_dim, sign }
    }

    /// An all-zero entry of `dim` weights and `require_space` state elements.
    pub fn new_empty(dim: usize, require_space: usize, sign: u64) -> (r: Self)
        requires
            dim + require_space <= usize::MAX,
        ensures
            r.wf(),
            r.spec_embedding_dim() == dim,
            r.spec_sign() == sign,
            r.buffer() == zeros((dim + require_space) as nat),
    {
        let inner = vec![0u32; dim + require_space];
        assert(inner@ =~= zeros((dim + require_space) as nat));
        Self { inner, embedding_dim: dim, sign }
    }

    /// An entry made of weights only, with no optimizer state.
    pub fn from_emb(emb: Vec<u32>, sign: u64) -> (r: Self)
        ensures
            r.wf(),
            r.spec_embedding_dim() == emb@.len(),
            r.spec_sign() == sign,
            r.buffer() == emb@,
    {
        let embedding_dim = emb.len();
        Self { inner: emb, embedding_dim, sign }
    }

    /// An entry made of the given weights followed by the given optimizer state.
    pub fn from_emb_and_opt(emb: Vec<u32>, opt: &[u32], sign: u64) -> (r: Self)
        requires
            emb@.len() + opt@.len() <= usize::MAX,
        ensures
            r.wf(),
            r.spec_embedding_dim() == emb@.len(),
            r.spec_sign() == sign,
            r.buffer() == emb@ + opt@,
    {
        let embedding_dim = emb.len();
        let mut inner = emb;
        inner.extend_from_slice(opt);
        assert(inner@ =~= emb@ + opt@);
        Self { inner, embedding_dim, sign }
    }

    /// Overwrites this entry's buffer with the other's when both have the same
    /// number of weights, and reports whether it did.
    pub fn copy_from_other(&mut self, other: &Self) -> (r: bool)
        requires
            old(self).wf(),
            other.wf(),
        ensures
            r == (old(self).spec_embedding_dim() == other.spec_embedding_dim()),
            final(self).wf(),
            final(self).spec_embedding_dim() == old(self).spec_embedding_dim(),
            final(self).spec_sign() == old(self).spec_sign(),
            final(self).buffer().len() == old(self).buffer().len(),
            !r ==> final(self).buffer() == old(self).buffer(),
            r && old(self).buffer().len() == other.buffer().len() ==> final(self).buffer() == other.buffer(),
            r ==> forall|i: int|
                0 <= i < final(self).buffer().len() ==> #[trigger] final(self).buffer()[i] == if i
                    < other.buffer().len() {
                    other.buffer()[i]
                } else {
                    old(self).buffer()[i]
                },
    {
        if self.embedding_dim != other.embedding_dim {
            return false;
        }
        let n: usize = if self.inner.len() < other.inner.len() {
            self.inner.len()
        } else {
            other.inner.len()
        };
        let mut i: usize = 0;
        while i < n
            invariant
                n <= self.inner@.len(),
                n <= other.inner@.len(),
                i <= n,
                self.embedding_dim == old(self).embedding_dim,
                self.sign == old(self).sign,
                self.inner@.len() == old(self).inner@.len(),
                forall|j: int|
                    0 <= j < self.inner@.len() ==> #[trigger] self.inner@[j] == if j < i {
                        other.inner@[j]
                    } else {
                        old(self).inner@[j]
                    },
            decreases n - i,
        {
            self.inner.set(i, other.inner[i]);
            i = i + 1;
        }
        proof {
            if self.inner@.len() == other.inner@.len() {
                assert(self.inner@ =~= other.inner@);
            }
        }
        true
    }

    pub fn as_emb_entry_slice(&self) -> (r: &[u32])
        ensures
            r@ == self.buffer(),
    {
        self.inner.as_slice()
    }

    pub fn as_mut_emb_entry_slice(&mut self) -> (r: &mut [u32])
        ensures
            r@ == old(self).buffer(),
            final(self).buffer() == final(r)@,
            final(self).spec_embedding_dim() == old(self).spec_embedding_dim(),
            final(self).spec_sign() == old(self).spec_sign(),
    {
        self.inner.as_mut_slice()
    }

    pub fn inner_size(&self) -> (r: usize)
        ensures
            r == self.buffer().len(),
    {
        self.inner.len()
    }

    pub fn dim(&self) -> (r: usize)
        ensures
            r == self.spec_embedding_dim(),
    {
        self.embedding_dim
    }

    pub fn embedding_dim(&self) -> (r: usize)
        ensures
            r == self.spec_embedding_dim(),
    {
        self.embedding_dim
    }

    pub fn sign(&self) -> (r: u64)
        ensures
            r == self.spec_sign(),
    {
        self.sign
    }

    /// The weight region.
    pub fn emb(&self) -> (r: &[u32])
        requires
            self.wf(),
        ensures
            r@ == self.emb_view(),
    {
        self.inner.as_slice().split_at(self.embedding_dim).0
    }

    /// The optimizer-state region.
    pub fn opt(&self) -> (r: &[u32])
        requires
            self.wf(),
        ensures
            r@ == self.opt_view(),
    {
        self.inner.as_slice().split_at(self.embedding_dim).1
    }

    /// Exclusive access to the weight region; the optimizer state is kept.
    pub fn emb_mut(&mut self) -> (r: &mut [u32])
        requires
            old(self).wf(),
        ensures
            r@ == old(self).emb_view(),
            final(self).buffer() == final(r)@ + old(self).opt_view(),
            final(self).spec_embedding_dim() == old(self).spec_embedding_dim(),
            final(self).spec_sign() == old(self).spec_sign(),
    {
        let dim = self.embedding_dim;
        self.inner.as_mut_slice().split_at_mut(dim).0
    }

    /// Exclusive access to the optimizer-state region; the weights are kept.
    pub fn opt_mut(&mut self) -> (r: &mut [u32])
        requires
            old(self).wf(),
        ensures
            r@ == old(self).opt_view(),
            final(self).buffer() == old(self).emb_view() + final(r)@,
            final(self).spec_embedding_dim() == old(self).spec_embedding_dim(),
            final(self).spec_sign() == old(self).spec_sign(),
    {
        let dim = self.embedding_dim;
        self.inner.as_mut_slice().split_at_mut(dim).1
    }

    /// Exclusive access to both regions at once, as two disjoint slices.
    pub fn emb_and_opt_mut(&mut self) -> (r: (&mut [u32], &mut [u32]))
        requires
            old(self).wf(),
        ensures
            r.0@ == old(self).emb_view(),
            r.1@ == old(self).opt_view(),
            final(self).buffer() == final(r.0)@ + final(r.1)@,
            final(self).spec_embedding_dim() == old(self).spec_embedding_dim(),
            final(self).spec_sign() == old(self).spec_sign(),
    {
        let dim = self.embedding_dim;
        self.inner.as_mut_slice().split_at_mut(dim)
    }

    /// An entry from its buffer and layout, as read back from storage.
    pub(crate) fn from_parts(inner: Vec<u32>, embedding_dim: usize, sign: u64) -> (r: Self)
        requires
            embedding_dim <= inner@.len(),
        ensures
            r.wf(),
            r.buffer() == inner@,
            r.spec_embedding_dim() == embedding_dim,
            r.spec_sign() == sign,
    {
        Self { inner, embedding_dim, sign }
    }

    pub fn boxed(self) -> (r: Box<Self>)
        ensures
            *r == self,
    {
        Box::new(self)
    }
}

impl EvictionMapValue<u64> for HashMapEmbeddingEntry {
    open spec fn key(&self) -> u64 {
        self.spec_sign()
    }

    open spec fn value_wf(&self) -> bool {
        self.wf()
    }

    /// An entry is stored under its sign.
    fn hashmap_key(&self) -> (r: u64) {
        self.sign
    }
}

} // verus!
