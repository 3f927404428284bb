use vstd::prelude::*;

use crate::entry::HashMapEmbeddingEntry;

verus! {

/// `256` to the power `n`.
pub open spec fn pow256(n: nat) -> nat
    decreases n,
{
    if n == 0 {
        1
    } else {
        256 * pow256((n - 1) as nat)
    }
}

/// The `n` low bytes of `x`, least significant first.
pub open spec fn le_bytes(x: nat, n: nat) -> Seq<u8>
    decreases n,
{
    if n == 0 {
        Seq::empty()
    } else {
        seq![(x % 256) as u8] + le_bytes(x / 256, (n - 1) as nat)
    }
}

/// The number whose little-endian bytes are `s`.
pub open spec fn le_value(s: Seq<u8>) -> nat
    decreases s.len(),
{
    if s.len() == 0 {
        0
    } else {
        s[0] as nat + 256 * le_value(s.drop_first())
    }
}

/// The elements of `p`, four little-endian bytes each.
pub open spec fn payload_bytes(p: Seq<u32>) -> Seq<u8>
    decreases p.len(),
{
    if p.len() == 0 {
        Seq::empty()
    } else {
        payload_bytes(p.drop_last()) + le_bytes(p.last() as nat, 4)
    }
}

/// A persisted entry: the number of weights and the sign as eight bytes each,
/// then every buffer element as four bytes, all little-endian.
pub open spec fn record_bytes(embedding_dim: nat, sign: u64, payload: Seq<u32>) -> Seq<u8> {
    le_bytes(embedding_dim, 8) + le_bytes(sign as nat, 8) + payload_bytes(payload)
}

/// `b` is the record of an entry with these fields.
pub open spec fn decodes_to(b: Seq<u8>, embedding_dim: nat, sign: u64, payload: Seq<u32>) -> bool {
    &&& b.len() == 16 + 4 * payload.len()
    &&& le_value(b.subrange(0, 8)) == embedding_dim
    &&& le_value(b.subrange(8, 16)) == sign
    &&& forall|i: int|
        0 <= i < payload.len() ==> le_value(b.subrange(16 + 4 * i, 20 + 4 * i)) == #[trigger] payload[i]
}

/// `b` has the shape of a record: a header, whole elements, and no more
/// weights than elements.
pub open spec fn is_record(b: Seq<u8>) -> bool {
    &&& b.len() >= 16
    &&& (b.len() - 16) % 4 == 0
    &&& le_value(b.subrange(0, 8)) <= (b.len() - 16) / 4
}

proof fn lemma_le_bytes_len(x: nat, n: nat)
    ensures
        le_bytes(x, n).len() == n,
    decreases n,
{
    if n > 0 {
        lemma_le_bytes_len(x / 256, (n - 1) as nat);
    }
}

proof fn lemma_le_round_trip(x: nat, n: nat)
    requires
        x < pow256(n),
    ensures
        le_value(le_bytes(x, n)) == x,
    decreases n,
{
    if n > 0 {
        let q = x / 256;
        assert(q < pow256((n - 1) as nat)) by (nonlinear_arith)
            requires
                x < 256 * pow256((n - 1) as nat),
                q == x / 256,
        ;
        lemma_le_round_trip(q, (n - 1) as nat);
        let s = le_bytes(x, n);
        assert(s.drop_first() =~= le_bytes(q, (n - 1) as nat));
        assert(x == (x % 256) + 256 * q) by (nonlinear_arith)
            requires
                q == x / 256,
        ;
    }
}

proof fn lemma_le_value_bound(s: Seq<u8>)
    ensures
        le_value(s) < pow256(s.len()),
    decreases s.len(),
{
    if s.len() > 0 {
        lemma_le_value_bound(s.drop_first());
        let a = s[0] as nat;
        let v = le_value(s.drop_first());
        let p = pow256((s.len() - 1) as nat);
        assert(a + 256 * v < 256 * p) by (nonlinear_arith)
            requires
                a < 256,
                v < p,
        ;
    }
}

proof fn lemma_pow256_facts()
    ensures
        pow256(4) == 0x1_0000_0000,
        pow256(7) == 0x100_0000_0000_0000,
        pow256(8) == 0x1_0000_0000_0000_0000,
{
    reveal_with_fuel(pow256, 9);
}

proof fn lemma_pow256_mono(a: nat, b: nat)
    requires
        a <= b,
    ensures
        pow256(a) <= pow256(b),
    decreases b,
{
    if a < b {
        lemma_pow256_mono(a, (b - 1) as nat);
    }
}

proof fn lemma_payload_bytes(p: Seq<u32>)
    ensures
        payload_bytes(p).len() == 4 * p.len(),
        forall|i: int|
            0 <= i < p.len() ==> #[trigger] payload_bytes(p).subrange(4 * i, 4 * i + 4) == le_bytes(
                p[i] as nat,
                4,
            ),
    decreases p.len(),
{
    if p.len() > 0 {
        let q = p.drop_last();
        lemma_payload_bytes(q);
        lemma_le_bytes_len(p.last() as nat, 4);
        assert forall|i: int| 0 <= i < p.len() implies #[trigger] payload_bytes(p).subrange(
            4 * i,
            4 * i + 4,
        ) == le_bytes(p[i] as nat, 4) by {
            if i < q.len() {
                assert(payload_bytes(p).subrange(4 * i, 4 * i + 4) =~= payload_bytes(q).subrange(
                    4 * i,
                    4 * i + 4,
                ));
            } else {
                assert(payload_bytes(p).subrange(4 * i, 4 * i + 4) =~= le_bytes(p.last() as nat, 4));
            }
        }
    }
}

/// Reading back the record of an entry gives the same number of weights, the
/// same sign and the same buffer; the record always has the shape of one.
pub proof fn lemma_record_round_trip(embedding_dim: usize, sign: u64, payload: Seq<u32>)
    requires
        embedding_dim <= payload.len(),
    ensures
        is_record(record_bytes(embedding_dim as nat, sign, payload)),
        decodes_to(record_bytes(embedding_dim as nat, sign, payload), embedding_dim as nat, sign, payload),
        forall|d: nat, s: u64, p: Seq<u32>|
            #[trigger] decodes_to(record_bytes(embedding_dim as nat, sign, payload), d, s, p) ==> d == embedding_dim
                && s == sign && p == payload,
{
    let b = record_bytes(embedding_dim as nat, sign, payload);
    let pb = payload_bytes(payload);
    lemma_le_bytes_len(embedding_dim as nat, 8);
    lemma_le_bytes_len(sign as nat, 8);
    lemma_payload_bytes(payload);
    lemma_pow256_facts();
    assert(b.subrange(0, 8) =~= le_bytes(embedding_dim as nat, 8));
    assert(b.subrange(8, 16) =~= le_bytes(sign as nat, 8));
    lemma_le_round_trip(sign as nat, 8);
    lemma_le_round_trip(embedding_dim as nat, 8);
    assert forall|i: int| 0 <= i < payload.len() implies le_value(b.subrange(16 + 4 * i, 20 + 4 * i))
        == #[trigger] payload[i] by {
        assert(b.subrange(16 + 4 * i, 20 + 4 * i) =~= pb.subrange(4 * i, 4 * i + 4));
        lemma_le_round_trip(payload[i] as nat, 4);
    }
    assert forall|d: nat, s: u64, p: Seq<u32>|
        #[trigger] decodes_to(b, d, s, p) implies d == embedding_dim && s == sign && p == payload by {
        assert(p.len() == payload.len());
        assert forall|i: int| 0 <= i < p.len() implies p[i] == payload[i] by {
            assert(le_value(b.subrange(16 + 4 * i, 20 + 4 * i)) == p[i]);
        }
        assert(p =~= payload);
    }
}

/// Appends the `n` low bytes of `x`, least significant first.
fn push_le(out: &mut Vec<u8>, x: u64, n: usize)
    ensures
        final(out)@ == old(out)@ + le_bytes(x as nat, n as nat),
{
    let mut v: u64 = x;
    let mut i: usize = 0;
    while i < n
        invariant
            i <= n,
            out@ + le_bytes(v as nat, (n - i) as nat) == old(out)@ + le_bytes(x as nat, n as nat),
        decreases n - i,
    {
        let ghost before = out@;
        out.push((v % 256) as u8);
        assert(le_bytes(v as nat, (n - i) as nat) == seq![(v % 256) as u8] + le_bytes(
            (v / 256) as nat,
            (n - i - 1) as nat,
        ));
        assert(out@ + le_bytes((v / 256) as nat, (n - i - 1) as nat) =~= before + le_bytes(
            v as nat,
            (n - i) as nat,
        ));
        v = v / 256;
        i = i + 1;
    }
    assert(out@ + le_bytes(v as nat, 0) =~= out@);
}

/// The number whose little-endian bytes are `b[start..start + n]`.
fn read_le(b: &[u8], start: usize, n: usize) -> (r: u64)
    requires
        start + n <= b@.len(),
        n <= 8,
    ensures
        r == le_value(b@.subrange(start as int, start + n)),
{
    let len = b.len();
    let mut v: u64 = 0;
    let mut i: usize = n;
    proof {
        lemma_pow256_facts();
    }
    while i > 0
        invariant
            i <= n <= 8,
            start + n <= b@.len() == len,
            v == le_value(b@.subrange(start + i, start + n)),
            pow256(7) == 0x100_0000_0000_0000,
        decreases i,
    {
        let ghost rest = b@.subrange(start + i, start + n);
        let ghost s = b@.subrange(start + i - 1, start + n);
        assert(s.drop_first() =~= rest);
        proof {
            lemma_le_value_bound(rest);
            lemma_pow256_mono(rest.len(), 7);
        }
        v = v * 256 + b[start + i - 1] as u64;
        i = i - 1;
    }
    v
}

/// The record of an entry with these fields: see `record_bytes`.
pub fn write_record(embedding_dim: usize, sign: u64, payload: &[u32]) -> (r: Vec<u8>)
    ensures
        r@ == record_bytes(embedding_dim as nat, sign, payload@),
{
    let mut out: Vec<u8> = Vec::new();
    push_le(&mut out, embedding_dim as u64, 8);
    push_le(&mut out, sign, 8);
    let mut i: usize = 0;
    while i < payload.len()
        invariant
            i <= payload@.len(),
            out@ == le_bytes(embedding_dim as nat, 8) + le_bytes(sign as nat, 8) + payload_bytes(
                payload@.subrange(0, i as int),
            ),
        decreases payload@.len() - i,
    {
        push_le(&mut out, payload[i] as u64, 4);
        assert(payload@.subrange(0, i + 1).drop_last() =~= payload@.subrange(0, i as int));
        i = i + 1;
    }
    assert(payload@.subrange(0, i as int) =~= payload@);
    out
}

/// The fields of the record `b`: number of weights, sign and buffer; `None`
/// when `b` does not have the shape of a record (see `is_record`).
pub fn read_record(b: &[u8]) -> (r: Option<(usize, u64, Vec<u32>)>)
    ensures
        r is Some <==> is_record(b@),
        r matches Some((d, s, p)) ==> d <= p@.len() && decodes_to(b@, d as nat, s, p@),
{
    if b.len() < 16 || (b.len() - 16) % 4 != 0 {
        return None;
    }
    let count = (b.len() - 16) / 4;
    let embedding_dim = read_le(b, 0, 8);
    if embedding_dim > count as u64 {
        return None;
    }
    let sign = read_le(b, 8, 8);
    let mut inner: Vec<u32> = Vec::new();
    let mut i: usize = 0;
    proof {
        lemma_pow256_facts();
    }
    while i < count
        invariant
            i <= count,
            b@.len() == 16 + 4 * count <= usize::MAX,
            inner@.len() == i,
            pow256(4) == 0x1_0000_0000,
            forall|j: int|
                0 <= j < i ==> le_value(b@.subrange(16 + 4 * j, 20 + 4 * j)) == #[trigger] inner@[j],
        decreases count - i,
    {
        let x = read_le(b, 16 + 4 * i, 4);
        proof {
            lemma_le_value_bound(b@.subrange(16 + 4 * i, 20 + 4 * i));
        }
        inner.push(x as u32);
        i = i + 1;
    }
    Some((embedding_dim as usize, sign, inner))
}

impl HashMapEmbeddingEntry {
    /// The entry's record: see `record_bytes`.
    pub fn write_to(&self) -> (r: Vec<u8>)
        requires
            self.wf(),
        ensures
            r@ == record_bytes(self.spec_embedding_dim(), self.spec_sign(), self.buffer()),
    {
        write_record(self.embedding_dim(), self.sign(), self.as_emb_entry_slice())
    }

    /// Reads an entry back from its record; `None` when `b` does not have the
    /// shape of one (see `is_record`).
    pub fn read_from(b: &[u8]) -> (r: Option<Self>)
        ensures
            r is Some <==> is_record(b@),
            r matches Some(e) ==> e.wf() && decodes_to(b@, e.spec_embedding_dim(), e.spec_sign(), e.buffer()),
    {
        match read_record(b) {
            Some((embedding_dim, sign, inner)) => Some(HashMapEmbeddingEntry::from_parts(inner, embedding_dim, sign)),
            None => None,
        }
    }
}

} // verus!
