use persia_embedding_holder::array_entry::{ArrayEmbeddingEntry, PersiaEmbeddingEntry};
use persia_embedding_holder::entry::{DynamicEmbeddingEntry, HashMapEmbeddingEntry};
use rand::rngs::SmallRng;
use rand::SeedableRng;
use rand_distr::{Distribution, Uniform};

fn bits(v: &[f32]) -> Vec<u32> {
    v.iter().map(|x| x.to_bits()).collect()
}

fn floats(v: &[u32]) -> Vec<f32> {
    v.iter().map(|x| f32::from_bits(*x)).collect()
}

fn sample_uniform(seed: u64, dim: usize, lower: f32, upper: f32) -> Vec<u32> {
    let mut rng = SmallRng::seed_from_u64(seed);
    let dist = Uniform::new(lower, upper);
    (0..dim).map(|_| dist.sample(&mut rng).to_bits()).collect()
}

#[test]
fn uniform_entry_has_bounded_weights_and_zero_state() {
    let e = HashMapEmbeddingEntry::new(sample_uniform(1, 4, 0.0, 1.0), 2, 123);
    assert_eq!(e.sign(), 123);
    assert_eq!(e.embedding_dim(), 4);
    assert_eq!(e.inner_size(), 6);
    let emb = floats(e.emb());
    assert_eq!(emb.len(), 4);
    for x in &emb {
        assert!(*x >= 0.0 && *x < 1.0);
    }
    assert_eq!(floats(e.opt()), vec![0.0, 0.0]);
    let bytes = e.write_to();
    let back = HashMapEmbeddingEntry::read_from(&bytes).unwrap();
    assert_eq!(back.sign(), 123);
    assert_eq!(back.embedding_dim(), 4);
    assert_eq!(back.as_emb_entry_slice(), e.as_emb_entry_slice());
}

#[test]
fn same_seed_gives_same_entry() {
    let a = HashMapEmbeddingEntry::new(sample_uniform(42, 8, 0.0, 1.0), 0, 7);
    let b = HashMapEmbeddingEntry::new(sample_uniform(42, 8, 0.0, 1.0), 0, 7);
    assert_eq!(a.emb(), b.emb());
    assert_eq!(a.emb().len(), 8);
}

#[test]
fn new_empty_is_all_zero() {
    let e = HashMapEmbeddingEntry::new_empty(3, 2, 9);
    assert_eq!(e.dim(), 3);
    assert_eq!(e.as_emb_entry_slice(), &[0u32; 5][..]);
    assert_eq!(e.opt().len(), 2);
}

#[test]
fn from_emb_and_opt_concatenates() {
    let e = HashMapEmbeddingEntry::from_emb_and_opt(bits(&[1.0, 2.0]), &bits(&[3.0]), 5);
    assert_eq!(floats(e.emb()), vec![1.0, 2.0]);
    assert_eq!(floats(e.opt()), vec![3.0]);
    let w = HashMapEmbeddingEntry::from_emb(bits(&[4.0, 5.0]), 6);
    assert_eq!(w.embedding_dim(), 2);
    assert!(w.opt().is_empty());
}

#[test]
fn copy_from_other_refuses_other_dimension() {
    let mut dst = HashMapEmbeddingEntry::from_emb_and_opt(bits(&[1.0, 2.0]), &bits(&[3.0]), 1);
    let src = HashMapEmbeddingEntry::from_emb(bits(&[9.0, 9.0, 9.0]), 2);
    assert!(!dst.copy_from_other(&src));
    assert_eq!(floats(dst.as_emb_entry_slice()), vec![1.0, 2.0, 3.0]);
    assert_eq!(dst.sign(), 1);
}

#[test]
fn copy_from_other_copies_same_dimension() {
    let mut dst = HashMapEmbeddingEntry::from_emb_and_opt(bits(&[1.0, 2.0]), &bits(&[3.0]), 1);
    let src = HashMapEmbeddingEntry::from_emb_and_opt(bits(&[7.0, 8.0]), &bits(&[0.5]), 2);
    assert!(dst.copy_from_other(&src));
    assert_eq!(dst.as_emb_entry_slice(), src.as_emb_entry_slice());
    assert_eq!(dst.sign(), 1);
}

#[test]
fn mutable_regions_write_through() {
    let mut e = HashMapEmbeddingEntry::new_empty(2, 2, 3);
    e.emb_mut()[1] = 1.5f32.to_bits();
    e.opt_mut()[0] = 2.5f32.to_bits();
    {
        let (w, s) = e.emb_and_opt_mut();
        w[0] = s[0];
        s[1] = 4.0f32.to_bits();
    }
    assert_eq!(floats(e.as_emb_entry_slice()), vec![2.5, 1.5, 2.5, 4.0]);
    e.as_mut_emb_entry_slice()[3] = 0;
    assert_eq!(floats(e.opt()), vec![2.5, 0.0]);
    let b = e.boxed();
    assert_eq!(b.sign(), 3);
}

#[test]
fn record_layout_is_little_endian() {
    let e = HashMapEmbeddingEntry::from_emb_and_opt(bits(&[1.0]), &bits(&[-2.0]), 0x0102);
    let bytes = e.write_to();
    let mut expected = vec![1u8, 0, 0, 0, 0, 0, 0, 0, 0x02, 0x01, 0, 0, 0, 0, 0, 0];
    expected.extend_from_slice(&1.0f32.to_le_bytes());
    expected.extend_from_slice(&(-2.0f32).to_le_bytes());
    assert_eq!(bytes, expected);
}

#[test]
fn malformed_records_are_rejected() {
    assert!(HashMapEmbeddingEntry::read_from(&[0u8; 15]).is_none());
    assert!(HashMapEmbeddingEntry::read_from(&[0u8; 18]).is_none());
    let mut too_many_weights = vec![2u8, 0, 0, 0, 0, 0, 0, 0, 1, 0, 0, 0, 0, 0, 0, 0];
    too_many_weights.extend_from_slice(&[0u8; 4]);
    assert!(HashMapEmbeddingEntry::read_from(&too_many_weights).is_none());
    let empty = HashMapEmbeddingEntry::read_from(&[0u8; 16]).unwrap();
    assert_eq!(empty.inner_size(), 0);
}

#[test]
fn array_entry_from_dynamic_and_record() {
    let d = DynamicEmbeddingEntry { inner: bits(&[1.0, 2.0, 3.0, 4.0]), embedding_dim: 3, sign: 11 };
    let a: ArrayEmbeddingEntry<4> = ArrayEmbeddingEntry::from_dynamic(d);
    assert_eq!(a.dim(), 3);
    assert_eq!(PersiaEmbeddingEntry::sign(&a), 11);
    assert_eq!(PersiaEmbeddingEntry::len(&a), 4);
    assert_eq!(floats(a.get_ref()), vec![1.0, 2.0, 3.0, 4.0]);
    assert_eq!(a.get_vec(), a.inner);
    assert_eq!(ArrayEmbeddingEntry::<4>::minimum_bytes_needed(), 32);
    let bytes = a.write_to();
    assert_eq!(bytes.len(), 32);
    let b: ArrayEmbeddingEntry<4> = ArrayEmbeddingEntry::read_from(&bytes).unwrap();
    assert_eq!(b.inner, a.inner);
    assert_eq!(b.embedding_dim, 3);
    assert_eq!(b.sign, 11);
    let mut c = b;
    c.get_mut()[0] = 0;
    assert_eq!(c.inner[0], 0);
}
