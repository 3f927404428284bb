use vstd::prelude::*;

use crate::entry::DynamicEmbeddingEntry;
use crate::record::{decodes_to, is_record, read_record, record_bytes, write_record};

verus! {

/// The interface shared by entries whose buffer length is fixed per table.
pub trait PersiaEmbeddingEntry: Sized {
    spec fn entry_buffer(&self) -> Seq<u32>;

    spec fn entry_dim(&self) -> nat;

    spec fn entry_sign(&self) -> u64;

    /// Holds when `dynamic_entry` fits this entry type.
    spec fn accepts(dynamic_entry: &DynamicEmbeddingEntry) -> bool;

    fn from_dynamic(dynamic_entry: DynamicEmbeddingEntry) -> (r: Self)
        requires
            Self::accepts(&dynamic_entry),
        ensures
            r.entry_buffer() == dynamic_entry.inner@,
            r.entry_dim() == dynamic_entry.embedding_dim,
            r.entry_sign() == dynamic_entry.sign,
    ;

    fn dim(&self) -> (r: usize)
        ensures
            r == self.entry_dim(),
    ;

    fn get_ref(&self) -> (r: &[u32])
        ensures
            r@ == self.entry_buffer(),
    ;

    fn get_mut(&mut self) -> (r: &mut [u32])
        ensures
            r@ == old(self).entry_buffer(),
            final(self).entry_buffer() == final(r)@,
            final(self).entry_dim() == old(self).entry_dim(),
            final(self).entry_sign() == old(self).entry_sign(),
    ;

    fn get_vec(&self) -> (r: Vec<u32>)
        ensures
            r@ == self.entry_buffer(),
    ;

    fn sign(&self) -> (r: u64)
        ensures
            r == self.entry_sign(),
    ;

    fn len(&self) -> (r: usize)
        ensures
            r == self.entry_buffer().len(),
    ;
}

/// An entry whose buffer holds exactly `L` elements, chosen once per table.
#[derive(Clone, Debug)]
pub struct ArrayEmbeddingEntry<const L: usize> {
    pub inner: Vec<u32>,
    pub embedding_dim: usize,
    pub sign: u64,
}

impl<const L: usize> PersiaEmbeddingEntry for ArrayEmbeddingEntry<L> {
    open spec fn entry_buffer(&self) -> Seq<u32> {
        self.inner@
    }

    open spec fn entry_dim(&self) -> nat {
        self.embedding_dim as nat
    }

    open spec fn entry_sign(&self) -> u64 {
        self.sign
    }

    open spec fn accepts(dynamic_entry: &DynamicEmbeddingEntry) -> bool {
        dynamic_entry.inner@.len() == L
    }

    fn from_dynamic(dynamic_entry: DynamicEmbeddingEntry) -> (r: Self) {
        let sign = dynamic_entry.sign;
        let embedding_dim = dynamic_entry.embedding_dim;
        ArrayEmbeddingEntry { sign, embedding_dim, inner: dynamic_entry.inner }
    }

    fn dim(&self) -> (r: usize) {
        self.embedding_dim
    }

    fn sign(&self) -> (r: u64) {
        self.sign
    }

    fn get_ref(&self) -> (r: &[u32]) {
        self.inner.as_slice()
    }

    fn get_mut(&mut self) -> (r: &mut [u32]) {
        self.inner.as_mut_slice()
    }

    fn get_vec(&self) -> (r: Vec<u32>) {
        let mut out: Vec<u32> = Vec::new();
        let mut i: usize = 0;
        while i < self.inner.len()
            invariant
                i <= self.inner@.len(),
                out@ == self.inner@.subrange(0, i as int),
            decreases self.inner@.len() - i,
        {
            out.push(self.inner[i]);
            i = i + 1;
            assert(out@ =~= self.inner@.subrange(0, i as int));
        }
        assert(self.inner@.subrange(0, i as int) =~= self.inner@);
        out
    }

    fn len(&self) -> (r: usize) {
        self.inner.len()
    }
}

impl<const L: usize> ArrayEmbeddingEntry<L> {
    /// The entry's record, in the same layout as a heap-backed entry's.
    pub fn write_to(&self) -> (r: Vec<u8>)
        ensures
            r@ == record_bytes(self.embedding_dim as nat, self.sign, self.inner@),
    {
        write_record(self.embedding_dim, self.sign, self.inner.as_slice())
    }

    /// Reads an entry back from its record; `None` when `b` does not have the
    /// shape of one.
    pub fn read_from(b: &[u8]) -> (r: Option<Self>)
        ensures
            r is Some <==> is_record(b@),
            r matches Some(e) ==> e.embedding_dim <= e.inner@.len() && decodes_to(
                b@,
                e.embedding_dim as nat,
                e.sign,
                e.inner@,
            ),
    {
        match read_record(b) {
            Some((embedding_dim, sign, inner)) => Some(ArrayEmbeddingEntry { inner, embedding_dim, sign }),
            None => None,
        }
    }

    /// The size of a record of an entry of this type.
    pub fn minimum_bytes_needed() -> (r: usize)
        requires
            16 + 4 * L <= usize::MAX,
        ensures
            r == 16 + 4 * L,
    {
        let mut out: usize = 0;
        out = out + 8;
        out = out + 8;
        out = out + 4 * L;
        out
    }
}

} // verus!
