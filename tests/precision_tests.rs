use persia_embedding_holder::entry::HashMapEmbeddingEntry;
use persia_embedding_holder::precision::{decode_half, encode_single, CompactEmbeddingEntry, StoredEntry};

fn bits(v: &[f32]) -> Vec<u32> {
    v.iter().map(|x| x.to_bits()).collect()
}

#[test]
fn codec_known_values() {
    assert_eq!(decode_half(0x3c00), 1.0f32.to_bits());
    assert_eq!(decode_half(0xc000), (-2.0f32).to_bits());
    assert_eq!(decode_half(0x0001), 2.0f32.powi(-24).to_bits());
    assert_eq!(decode_half(0x7c00), f32::INFINITY.to_bits());
    assert!(f32::from_bits(decode_half(0x7e00)).is_nan());
    assert_eq!(encode_single(1.0f32.to_bits()), 0x3c00);
    assert_eq!(encode_single(0.5f32.to_bits()), 0x3800);
    assert_eq!(encode_single(65520.0f32.to_bits()), 0x7c00);
    assert_eq!(encode_single(2.0f32.powi(-24).to_bits()), 0x0001);
    assert_eq!(encode_single(2.0f32.powi(-26).to_bits()), 0x0000);
    assert_eq!(encode_single((-0.0f32).to_bits()), 0x8000);
    assert_eq!(encode_single(f32::NAN.to_bits()) & 0x7c00, 0x7c00);
    assert_ne!(encode_single(f32::NAN.to_bits()) & 0x03ff, 0);
}

#[test]
fn codec_ties_round_to_even() {
    // 1 + 2^-11 lies halfway between 1 and the next half value.
    assert_eq!(encode_single((1.0f32 + 2.0f32.powi(-11)).to_bits()), 0x3c00);
    assert_eq!(encode_single((1.0f32 + 3.0 * 2.0f32.powi(-11)).to_bits()), 0x3c02);
}

#[test]
fn every_half_value_survives_a_round_trip() {
    for h in 0..=u16::MAX {
        assert_eq!(encode_single(decode_half(h)), h);
    }
}

#[test]
fn compact_storage_stays_within_half_precision() {
    let values = [0.1f32, -3.7, 1000.25, 0.000123];
    let full = HashMapEmbeddingEntry::from_emb_and_opt(bits(&values[..3]), &bits(&values[3..]), 8);
    let compact = CompactEmbeddingEntry::from_full(&full);
    let back = compact.to_full();
    for (a, b) in values.iter().zip(back.as_emb_entry_slice()) {
        let b = f32::from_bits(*b);
        assert!(((a - b) / a).abs() <= 2.0f32.powi(-10));
    }
    let again = CompactEmbeddingEntry::from_full(&back);
    assert_eq!(again.encoded(), compact.encoded());
    assert_eq!(again.sign(), 8);
    assert_eq!(again.embedding_dim(), 3);
}

#[test]
fn view_without_change_keeps_encoded_bytes() {
    let full = HashMapEmbeddingEntry::from_emb_and_opt(bits(&[0.3, -1.25]), &bits(&[7.0]), 4);
    let stored = StoredEntry::store(full, true);
    let before = match &stored {
        StoredEntry::Compact(c) => c.encoded().to_vec(),
        StoredEntry::Full(_) => panic!("expected compact storage"),
    };
    let view = stored.acquire();
    assert!(view.is_compact());
    let after = view.release();
    match &after {
        StoredEntry::Compact(c) => assert_eq!(c.encoded(), &before[..]),
        StoredEntry::Full(_) => panic!("expected compact storage"),
    }
}

#[test]
fn view_changes_reach_compact_storage() {
    let full = HashMapEmbeddingEntry::new_empty(2, 0, 4);
    let mut view = StoredEntry::store(full, true).acquire();
    view.entry_mut().emb_mut()[1] = 1.5f32.to_bits();
    let after = view.release();
    match &after {
        StoredEntry::Compact(c) => assert_eq!(c.encoded(), &[0u16, 0x3e00][..]),
        StoredEntry::Full(_) => panic!("expected compact storage"),
    }
}

#[test]
fn full_precision_view_is_the_entry_itself() {
    let full = HashMapEmbeddingEntry::from_emb(bits(&[0.1, 0.2]), 1);
    let stored = StoredEntry::store(full, false);
    assert_eq!(stored.full().sign(), 1);
    let mut view = stored.acquire();
    assert!(!view.is_compact());
    view.entry_mut().emb_mut()[0] = 0.7f32.to_bits();
    let after = view.release();
    assert_eq!(after.full().as_emb_entry_slice(), &bits(&[0.7, 0.2])[..]);
}

#[test]
fn stored_records_decode_to_full_precision() {
    let full = HashMapEmbeddingEntry::from_emb_and_opt(bits(&[1.5, -0.25]), &bits(&[2.0]), 77);
    let compact = StoredEntry::store(full, true);
    let bytes = compact.write_to();
    let e = HashMapEmbeddingEntry::read_from(&bytes).unwrap();
    assert_eq!(e.as_emb_entry_slice(), &bits(&[1.5, -0.25, 2.0])[..]);
    assert_eq!(e.sign(), 77);
    match StoredEntry::read_from(&bytes, true).unwrap() {
        StoredEntry::Compact(c) => assert_eq!(c.encoded(), &[0x3e00u16, 0xb400, 0x4000][..]),
        StoredEntry::Full(_) => panic!("expected compact storage"),
    }
    match StoredEntry::read_from(&bytes, false).unwrap() {
        StoredEntry::Full(f) => assert_eq!(f.embedding_dim(), 2),
        StoredEntry::Compact(_) => panic!("expected full storage"),
    }
    assert!(StoredEntry::read_from(&bytes[..10], true).is_none());
}
