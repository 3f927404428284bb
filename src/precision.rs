use vstd::prelude::*;

use crate::entry::HashMapEmbeddingEntry;
use crate::record::{decodes_to, is_record, read_record, record_bytes, write_record};

verus! {

/// Position of the highest set bit of a nonzero ten-bit half mantissa.
pub open spec fn high_bit(m: u32) -> u32 {
    if m >= 512 {
        9
    } else if m >= 256 {
        8
    } else if m >= 128 {
        7
    } else if m >= 64 {
        6
    } else if m >= 32 {
        5
    } else if m >= 16 {
        4
    } else if m >= 8 {
        3
    } else if m >= 4 {
        2
    } else if m >= 2 {
        1
    } else {
        0
    }
}

/// The single-precision bit pattern of the value of a half-precision one; the
/// conversion is exact, and a NaN keeps its payload.
pub open spec fn half_to_single(h: u16) -> u32 {
    let sign = ((h as u32) & 0x8000) << 16u32;
    let exp = ((h as u32) >> 10u32) & 0x1f;
    let man = (h as u32) & 0x3ff;
    if exp == 0x1f {
        sign | 0x7f80_0000 | (man << 13u32)
    } else if exp == 0 {
        if man == 0 {
            sign
        } else {
            let p = high_bit(man);
            sign | ((103 + p) as u32) << 23u32 | ((man << (23 - p) as u32) & 0x7f_ffff)
        }
    } else {
        sign | ((exp + 112) as u32) << 23u32 | (man << 13u32)
    }
}

/// Rounds `base` up when the dropped bits `rem` are above half of the last
/// kept place `half`, or exactly half and `base` is odd.
pub open spec fn round_even(base: u32, rem: u32, half: u32) -> u32 {
    if rem > half || (rem == half && base & 1 == 1) {
        (base + 1) as u32
    } else {
        base
    }
}

/// The half-precision bit pattern nearest to a single-precision one (ties to
/// even); values too large become infinite, too small become zero, and a NaN
/// stays a NaN.
pub open spec fn single_to_half(x: u32) -> u16 {
    let sign = (x >> 16u32) & 0x8000;
    let exp = (x >> 23u32) & 0xff;
    let man = x & 0x7f_ffff;
    let bits: u32 = if exp == 0xff {
        if man == 0 {
            sign | 0x7c00
        } else if man >> 13u32 == 0 {
            sign | 0x7e00
        } else {
            sign | 0x7c00 | (man >> 13u32)
        }
    } else if exp > 142 {
        sign | 0x7c00
    } else if exp >= 113 {
        sign | round_even(((exp - 112) as u32) << 10u32 | (man >> 13u32), man & 0x1fff, 0x1000)
    } else if exp < 102 {
        sign
    } else {
        let shift = (126 - exp) as u32;
        let m = man | 0x80_0000;
        sign | round_even(m >> shift, m & (((1u32 << shift) - 1) as u32), 1u32 << (shift - 1) as u32)
    };
    bits as u16
}

/// Decoding a half-precision pattern and encoding the result again gives the
/// pattern back: every half-precision value is exactly representable in single
/// precision.
pub proof fn lemma_half_round_trip(h: u16)
    ensures
        single_to_half(half_to_single(h)) == h,
{
    let hh = h as u32;
    let exp = (hh >> 10u32) & 0x1f;
    let man = hh & 0x3ff;
    let x = half_to_single(h);
    let s = (x >> 16u32) & 0x8000;
    let e = (x >> 23u32) & 0xff;
    let m = x & 0x7f_ffff;
    assert(exp <= 0x1f && man <= 0x3ff) by (bit_vector)
        requires
            exp == (hh >> 10u32) & 0x1f,
            man == hh & 0x3ff,
    ;
    if exp == 0x1f {
        assert(e == 0xff && m >> 13u32 == man && (man == 0 ==> m == 0) && (man != 0 ==> m != 0)
            && (s | 0x7c00 | (m >> 13u32)) as u16 == h && (man == 0 ==> (s | 0x7c00) as u16 == h))
            by (bit_vector)
            requires
                exp == (hh >> 10u32) & 0x1f,
                man == hh & 0x3ff,
                hh == h as u32,
                exp == 0x1f,
                x == ((hh & 0x8000) << 16u32) | 0x7f80_0000 | (man << 13u32),
                s == (x >> 16u32) & 0x8000,
                e == (x >> 23u32) & 0xff,
                m == x & 0x7f_ffff,
        ;
    } else if exp == 0 {
        if man == 0 {
            assert(e == 0 && s as u16 == h) by (bit_vector)
                requires
                    exp == (hh >> 10u32) & 0x1f,
                    man == hh & 0x3ff,
                    hh == h as u32,
                    exp == 0,
                    man == 0,
                    x == ((hh & 0x8000) << 16u32),
                    s == (x >> 16u32) & 0x8000,
                    e == (x >> 23u32) & 0xff,
            ;
        } else {
            let p = high_bit(man);
            if man >= 512 {
                assert(man >> 9u32 == 1) by (bit_vector)
                    requires
                        512 <= man <= 1023,
                ;
            } else if man >= 256 {
                assert(man >> 8u32 == 1) by (bit_vector)
                    requires
                        256 <= man <= 511,
                ;
            } else if man >= 128 {
                assert(man >> 7u32 == 1) by (bit_vector)
                    requires
                        128 <= man <= 255,
                ;
            } else if man >= 64 {
                assert(man >> 6u32 == 1) by (bit_vector)
                    requires
                        64 <= man <= 127,
                ;
            } else if man >= 32 {
                assert(man >> 5u32 == 1) by (bit_vector)
                    requires
                        32 <= man <= 63,
                ;
            } else if man >= 16 {
                assert(man >> 4u32 == 1) by (bit_vector)
                    requires
                        16 <= man <= 31,
                ;
            } else if man >= 8 {
                assert(man >> 3u32 == 1) by (bit_vector)
                    requires
                        8 <= man <= 15,
                ;
            } else if man >= 4 {
                assert(man >> 2u32 == 1) by (bit_vector)
                    requires
                        4 <= man <= 7,
                ;
            } else if man >= 2 {
                assert(man >> 1u32 == 1) by (bit_vector)
                    requires
                        2 <= man <= 3,
                ;
            } else {
                assert(man >> 0u32 == 1) by (bit_vector)
                    requires
                        1 <= man <= 1,
                ;
            }
            assert(p <= 9 && man >> p == 1);
            let shift = (126 - e) as u32;
            let mm = m | 0x80_0000;
            assert(e == 103 + p && shift == (23 - p) as u32 && mm >> shift == man && mm & (((1u32 << shift) - 1) as u32)
                == 0 && (s | man) as u16 == h && (1u32 << (shift - 1) as u32) > 0) by (bit_vector)
                requires
                    exp == (hh >> 10u32) & 0x1f,
                    man == hh & 0x3ff,
                    hh == h as u32,
                    exp == 0,
                    p <= 9,
                    man >> p == 1,
                    x == ((hh & 0x8000) << 16u32) | ((103 + p) as u32) << 23u32 | ((man << (23 - p) as u32) & 0x7f_ffff),
                    s == (x >> 16u32) & 0x8000,
                    e == (x >> 23u32) & 0xff,
                    m == x & 0x7f_ffff,
                    shift == (126 - e) as u32,
                    mm == m | 0x80_0000,
            ;
        }
    } else {
        assert(e == exp + 112 && m & 0x1fff == 0 && (s | (((e - 112) as u32) << 10u32 | (m >> 13u32))) as u16
            == h) by (bit_vector)
            requires
                exp == (hh >> 10u32) & 0x1f,
                man == hh & 0x3ff,
                hh == h as u32,
                1 <= exp <= 30,
                x == ((hh & 0x8000) << 16u32) | ((exp + 112) as u32) << 23u32 | (man << 13u32),
                s == (x >> 16u32) & 0x8000,
                e == (x >> 23u32) & 0xff,
                m == x & 0x7f_ffff,
        ;
    }
}

/// Every element of `s` decoded to single precision.
pub open spec fn decode_all(s: Seq<u16>) -> Seq<u32> {
    s.map_values(|h: u16| half_to_single(h))
}

/// Every element of `s` encoded to half precision.
pub open spec fn encode_all(s: Seq<u32>) -> Seq<u16> {
    s.map_values(|x: u32| single_to_half(x))
}

/// Decoding a compact buffer and encoding it again gives it back unchanged, so
/// a compact entry survives a trip through full precision with every value
/// intact.
pub proof fn lemma_buffer_round_trip(s: Seq<u16>)
    ensures
        encode_all(decode_all(s)) == s,
{
    assert forall|i: int| 0 <= i < s.len() implies #[trigger] encode_all(decode_all(s))[i] == s[i] by {
        lemma_half_round_trip(s[i]);
    }
    assert(encode_all(decode_all(s)) =~= s);
}

fn high_bit_of(m: u32) -> (r: u32)
    ensures
        r == high_bit(m),
{
    if m >= 512 {
        9
    } else if m >= 256 {
        8
    } else if m >= 128 {
        7
    } else if m >= 64 {
        6
    } else if m >= 32 {
        5
    } else if m >= 16 {
        4
    } else if m >= 8 {
        3
    } else if m >= 4 {
        2
    } else if m >= 2 {
        1
    } else {
        0
    }
}

/// Decodes one half-precision pattern.
pub fn decode_half(h: u16) -> (r: u32)
    ensures
        r == half_to_single(h),
{
    let hh = h as u32;
    let sign = (hh & 0x8000) << 16u32;
    let exp = (hh >> 10u32) & 0x1f;
    let man = hh & 0x3ff;
    assert(exp <= 0x1f && man <= 0x3ff) by (bit_vector)
        requires
            exp == (hh >> 10u32) & 0x1f,
            man == hh & 0x3ff,
    ;
    if exp == 0x1f {
        sign | 0x7f80_0000 | (man << 13u32)
    } else if exp == 0 {
        if man == 0 {
            sign
        } else {
            let p = high_bit_of(man);
            sign | (103 + p) << 23u32 | ((man << (23 - p)) & 0x7f_ffff)
        }
    } else {
        sign | (exp + 112) << 23u32 | (man << 13u32)
    }
}

fn round_to_even(base: u32, rem: u32, half: u32) -> (r: u32)
    requires
        base < 0xffff_ffff,
    ensures
        r == round_even(base, rem, half),
{
    if rem > half || (rem == half && base & 1 == 1) {
        base + 1
    } else {
        base
    }
}

/// Encodes one single-precision pattern, rounding to nearest, ties to even.
pub fn encode_single(x: u32) -> (r: u16)
    ensures
        r == single_to_half(x),
{
    let sign = (x >> 16u32) & 0x8000;
    let exp = (x >> 23u32) & 0xff;
    let man = x & 0x7f_ffff;
    let bits: u32 = if exp == 0xff {
        if man == 0 {
            sign | 0x7c00
        } else if man >> 13u32 == 0 {
            sign | 0x7e00
        } else {
            sign | 0x7c00 | (man >> 13u32)
        }
    } else if exp > 142 {
        sign | 0x7c00
    } else if exp >= 113 {
        let e = exp - 112;
        assert(e << 10u32 | (man >> 13u32) < 0xffff_ffff) by (bit_vector)
            requires
                e <= 30,
                man == x & 0x7f_ffff,
        ;
        sign | round_to_even(e << 10u32 | (man >> 13u32), man & 0x1fff, 0x1000)
    } else if exp < 102 {
        sign
    } else {
        let shift = 126 - exp;
        let m = man | 0x80_0000;
        assert(1u32 << shift >= 1 && m >> shift < 0xffff_ffff) by (bit_vector)
            requires
                14 <= shift <= 24,
                m == man | 0x80_0000,
                man == x & 0x7f_ffff,
        ;
        sign | round_to_even(m >> shift, m & ((1u32 << shift) - 1), 1u32 << (shift - 1))
    };
    bits as u16
}

fn decode_buffer(s: &[u16]) -> (r: Vec<u32>)
    ensures
        r@ == decode_all(s@),
{
    let mut out: Vec<u32> = Vec::new();
    let mut i: usize = 0;
    while i < s.len()
        invariant
            i <= s@.len(),
            out@ == decode_all(s@.subrange(0, i as int)),
        decreases s@.len() - i,
    {
        out.push(decode_half(s[i]));
        i = i + 1;
        assert(out@ =~= decode_all(s@.subrange(0, i as int)));
    }
    assert(s@.subrange(0, i as int) =~= s@);
    out
}

fn encode_buffer(s: &[u32]) -> (r: Vec<u16>)
    ensures
        r@ == encode_all(s@),
{
    let mut out: Vec<u16> = Vec::new();
    let mut i: usize = 0;
    while i < s.len()
        invariant
            i <= s@.len(),
            out@ == encode_all(s@.subrange(0, i as int)),
        decreases s@.len() - i,
    {
        out.push(encode_single(s[i]));
        i = i + 1;
        assert(out@ =~= encode_all(s@.subrange(0, i as int)));
    }
    assert(s@.subrange(0, i as int) =~= s@);
    out
}

/// An entry stored at half precision: the same layout as a full-precision
/// entry, at half the memory.
pub struct CompactEmbeddingEntry {
    inner: Vec<u16>,
    embedding_dim: usize,
    sign: u64,
}

impl CompactEmbeddingEntry {
    pub closed spec fn buffer(&self) -> Seq<u16> {
        self.inner@
    }

    pub closed spec fn spec_embedding_dim(&self) -> nat {
        self.embedding_dim as nat
    }

    pub closed spec fn spec_sign(&self) -> u64 {
        self.sign
    }

    pub open spec fn wf(&self) -> bool {
        self.spec_embedding_dim() <= self.buffer().len()
    }

    /// The compact form of a full-precision entry, each element rounded to
    /// the nearest half-precision value.
    pub fn from_full(e: &HashMapEmbeddingEntry) -> (r: Self)
        requires
            e.wf(),
        ensures
            r.wf(),
            r.buffer() == encode_all(e.buffer()),
            r.spec_embedding_dim() == e.spec_embedding_dim(),
            r.spec_sign() == e.spec_sign(),
    {
        let inner = encode_buffer(e.as_emb_entry_slice());
        CompactEmbeddingEntry { inner, embedding_dim: e.embedding_dim(), sign: e.sign() }
    }

    /// The full-precision form of this entry; no value changes.
    pub fn to_full(&self) -> (r: HashMapEmbeddingEntry)
        requires
            self.wf(),
        ensures
            r.wf(),
            r.buffer() == decode_all(self.buffer()),
            r.spec_embedding_dim() == self.spec_embedding_dim(),
            r.spec_sign() == self.spec_sign(),
    {
        HashMapEmbeddingEntry::from_parts(decode_buffer(self.inner.as_slice()), self.embedding_dim, self.sign)
    }

    pub fn encoded(&self) -> (r: &[u16])
        ensures
            r@ == self.buffer(),
    {
        self.inner.as_slice()
    }

    pub fn embedding_dim(&self) -> (r: usize)
        ensures
            r == self.spec_embedding_dim(),
    {
        self.embedding_dim
    }

    pub fn sign(&self) -> (r: u64)
        ensures
            r == self.spec_sign(),
    {
        self.sign
    }
}

/// A scoped full-precision view of a stored entry. It owns the entry while it
/// is open, so nothing else can reach the entry meanwhile; `release` hands
/// the entry back in the representation it came in.
pub struct PrecisionView {
    entry: HashMapEmbeddingEntry,
    compact: bool,
}

impl PrecisionView {
    pub closed spec fn entry_spec(&self) -> HashMapEmbeddingEntry {
        self.entry
    }

    pub closed spec fn is_compact_spec(&self) -> bool {
        self.compact
    }

    pub open spec fn wf(&self) -> bool {
        self.entry_spec().wf()
    }

    pub fn is_compact(&self) -> (r: bool)
        ensures
            r == self.is_compact_spec(),
    {
        self.compact
    }

    /// The full-precision entry under the view.
    pub fn entry(&self) -> (r: &HashMapEmbeddingEntry)
        ensures
            *r == self.entry_spec(),
    {
        &self.entry
    }

    /// Exclusive access to the full-precision entry under the view.
    pub fn entry_mut(&mut self) -> (r: &mut HashMapEmbeddingEntry)
        ensures
            *r == old(self).entry_spec(),
            final(self).entry_spec() == *final(r),
            final(self).is_compact_spec() == old(self).is_compact_spec(),
    {
        &mut self.entry
    }

    /// Closes the view: a compact entry is encoded again, once; a
    /// full-precision one is handed back as it is.
    pub fn release(self) -> (r: StoredEntry)
        requires
            self.wf(),
        ensures
            r.wf(),
            (r is Compact) == self.is_compact_spec(),
            r.spec_embedding_dim() == self.entry_spec().spec_embedding_dim(),
            r.spec_sign() == self.entry_spec().spec_sign(),
            self.is_compact_spec() ==> r->Compact_0.buffer() == encode_all(self.entry_spec().buffer()),
            !self.is_compact_spec() ==> r == StoredEntry::Full(self.entry_spec()),
    {
        StoredEntry::store(self.entry, self.compact)
    }
}

/// An entry in the physical representation its table was configured with.
pub enum StoredEntry {
    Full(HashMapEmbeddingEntry),
    Compact(CompactEmbeddingEntry),
}

impl StoredEntry {
    pub open spec fn wf(&self) -> bool {
        match self {
            StoredEntry::Full(e) => e.wf(),
            StoredEntry::Compact(c) => c.wf(),
        }
    }

    /// The logical values, at full precision, whatever the representation.
    pub open spec fn values(&self) -> Seq<u32> {
        match self {
            StoredEntry::Full(e) => e.buffer(),
            StoredEntry::Compact(c) => decode_all(c.buffer()),
        }
    }

    pub open spec fn spec_embedding_dim(&self) -> nat {
        match self {
            StoredEntry::Full(e) => e.spec_embedding_dim(),
            StoredEntry::Compact(c) => c.spec_embedding_dim(),
        }
    }

    pub open spec fn spec_sign(&self) -> u64 {
        match self {
            StoredEntry::Full(e) => e.spec_sign(),
            StoredEntry::Compact(c) => c.spec_sign(),
        }
    }

    /// Stores `e` in the chosen representation.
    pub fn store(e: HashMapEmbeddingEntry, compact: bool) -> (r: Self)
        requires
            e.wf(),
        ensures
            r.wf(),
            compact ==> r is Compact && r->Compact_0.buffer() == encode_all(e.buffer())
                && r.spec_embedding_dim() == e.spec_embedding_dim() && r.spec_sign() == e.spec_sign(),
            !compact ==> r == StoredEntry::Full(e),
    {
        if compact {
            StoredEntry::Compact(CompactEmbeddingEntry::from_full(&e))
        } else {
            StoredEntry::Full(e)
        }
    }

    /// Direct access to a full-precision entry; asking it of a compact one is
    /// a caller's error.
    pub fn full(&self) -> (r: &HashMapEmbeddingEntry)
        requires
            self is Full,
        ensures
            *r == self->Full_0,
    {
        match self {
            StoredEntry::Full(e) => e,
            StoredEntry::Compact(_) => vstd::pervasive::unreached(),
        }
    }

    /// Opens a scoped full-precision view: a full-precision entry is moved
    /// into it as it is, a compact one is decoded once.
    pub fn acquire(self) -> (r: PrecisionView)
        requires
            self.wf(),
        ensures
            r.wf(),
            r.is_compact_spec() == (self is Compact),
            r.entry_spec().buffer() == self.values(),
            r.entry_spec().spec_embedding_dim() == self.spec_embedding_dim(),
            r.entry_spec().spec_sign() == self.spec_sign(),
            self is Full ==> r.entry_spec() == self->Full_0,
    {
        match self {
            StoredEntry::Full(e) => PrecisionView { entry: e, compact: false },
            StoredEntry::Compact(c) => PrecisionView { entry: c.to_full(), compact: true },
        }
    }

    /// The entry's record, from its full-precision values.
    pub fn write_to(&self) -> (r: Vec<u8>)
        requires
            self.wf(),
        ensures
            r@ == record_bytes(self.spec_embedding_dim(), self.spec_sign(), self.values()),
    {
        match self {
            StoredEntry::Full(e) => e.write_to(),
            StoredEntry::Compact(c) => write_record(c.embedding_dim(), c.sign(), decode_buffer(c.encoded()).as_slice()),
        }
    }

    /// Reads a record into the chosen representation; `None` when `b` does not
    /// have the shape of a record.
    pub fn read_from(b: &[u8], compact: bool) -> (r: Option<Self>)
        ensures
            r is Some <==> is_record(b@),
            r matches Some(s) ==> s.wf() && (s is Compact) == compact,
            r matches Some(s) ==> exists|p: Seq<u32>|
                #[trigger] decodes_to(b@, s.spec_embedding_dim(), s.spec_sign(), p) && if compact {
                    s->Compact_0.buffer() == encode_all(p)
                } else {
                    s.values() == p
                },
    {
        match read_record(b) {
            Some((embedding_dim, sign, inner)) => {
                let ghost p = inner@;
                let e = HashMapEmbeddingEntry::from_parts(inner, embedding_dim, sign);
                let s = StoredEntry::store(e, compact);
                assert(decodes_to(b@, s.spec_embedding_dim(), s.spec_sign(), p) && if compact {
                    s->Compact_0.buffer() == encode_all(p)
                } else {
                    s.values() == p
                });
                Some(s)
            },
            None => None,
        }
    }
}

/// Opening a view and closing it again without a change leaves the stored
/// entry as it was, encoded bytes included.
pub proof fn lemma_view_idempotent(s: StoredEntry, v: PrecisionView, t: StoredEntry)
    requires
        s.wf(),
        v.is_compact_spec() == (s is Compact),
        v.entry_spec().buffer() == s.values(),
        v.entry_spec().spec_embedding_dim() == s.spec_embedding_dim(),
        v.entry_spec().spec_sign() == s.spec_sign(),
        s is Full ==> v.entry_spec() == s->Full_0,
        (t is Compact) == v.is_compact_spec(),
        t.spec_embedding_dim() == v.entry_spec().spec_embedding_dim(),
        t.spec_sign() == v.entry_spec().spec_sign(),
        v.is_compact_spec() ==> t->Compact_0.buffer() == encode_all(v.entry_spec().buffer()),
        !v.is_compact_spec() ==> t == StoredEntry::Full(v.entry_spec()),
    ensures
        t.spec_embedding_dim() == s.spec_embedding_dim(),
        t.spec_sign() == s.spec_sign(),
        t.values() == s.values(),
        s is Compact ==> t->Compact_0.buffer() == s->Compact_0.buffer(),
        s is Full ==> t == s,
{
    if s is Compact {
        lemma_buffer_round_trip(s->Compact_0.buffer());
    }
}

} // verus!
