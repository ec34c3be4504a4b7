use ocid::v0::raw::RawOcidV0;
use ocid::v0::{size_from_u64, OcidV0, BASE64_LEN, LEN};
use ocid::Ocid;
use rand_core::{OsRng, RngCore};
use std::mem::MaybeUninit;
use std::collections::HashSet;

fn sample() -> OcidV0 {
    let mut hash = [0u8; 32];
    for (i, b) in hash.iter_mut().enumerate() {
        *b = (i * 5 + 1) as u8;
    }
    OcidV0::from_parts([0, 0, 0, 1, 2, 3], hash)
}

fn random_id(rng: &mut OsRng) -> OcidV0 {
    let mut body = [0u8; 38];
    rng.fill_bytes(&mut body);
    OcidV0::from_body(body)
}

#[test]
fn size_u64() {
    let mut rng = rand_core::OsRng;

    let mut gen_size = || -> (u64, [u8; 6]) {
        let size_u64 = rng.next_u64() >> 16;
        let size = size_from_u64(size_u64).unwrap();
        (size_u64, size)
    };

    for _ in 0..1024 {
        let (size_u64, size) = gen_size();

        let id = OcidV0::from_parts(size, [0; 32]);
        assert_eq!(id.size_u64(), size_u64);
    }
}

#[test]
fn size_u64_ignores_the_hash() {
    let id = OcidV0::from_parts([0x01, 0x02, 0x03, 0x04, 0x05, 0x06], [0xFF; 32]);
    assert_eq!(id.size_u64(), 0x0102_0304_0506);
    let id = OcidV0::from_parts([0xFF; 6], [0xFF; 32]);
    assert_eq!(id.size_u64(), 0xFFFF_FFFF_FFFF);
    assert_eq!(OcidV0::empty().size_u64(), 0);
}

#[test]
fn size_from_u64_is_big_endian() {
    assert_eq!(size_from_u64(0), Some([0; 6]));
    assert_eq!(size_from_u64(1), Some([0, 0, 0, 0, 0, 1]));
    assert_eq!(size_from_u64(0x0102_0304_0506), Some([1, 2, 3, 4, 5, 6]));
    assert_eq!(size_from_u64(0xFFFF_FFFF_FFFF), Some([0xFF; 6]));
}

#[test]
fn size_from_u64_rejects_what_does_not_fit() {
    assert_eq!(size_from_u64(0x1_0000_0000_0000), None);
    assert_eq!(size_from_u64(0x0100_0000_0000_0000), None);
    assert_eq!(size_from_u64(u64::MAX), None);
}

#[test]
fn from_parts_sets_version_zero() {
    let id = sample();
    assert_eq!(id.version(), 0);
    assert_eq!(id.size(), &[0, 0, 0, 1, 2, 3]);
    assert_eq!(id.hash()[0], 1);
    assert_eq!(id.hash()[31], 156);
    assert_eq!(id.as_raw().version, 0);
    assert_eq!(id.into_raw().size, [0, 0, 0, 1, 2, 3]);
}

#[test]
fn layout_is_version_size_hash() {
    let bytes = sample().into_bytes();
    assert_eq!(bytes.len(), LEN);
    assert_eq!(LEN, 39);
    assert_eq!(bytes[0], 0);
    assert_eq!(&bytes[1..7], &[0, 0, 0, 1, 2, 3]);
    assert_eq!(&bytes[7..], &sample().hash()[..]);
    assert_eq!(sample().as_bytes(), bytes);
    assert_eq!(&sample().body()[..], &bytes[1..]);
}

#[test]
fn empty_is_all_zero() {
    let id = OcidV0::empty();
    assert!(id.is_empty());
    assert_eq!(id.into_bytes(), [0u8; 39]);
}

#[test]
fn any_nonzero_size_byte_makes_it_non_empty() {
    for i in 0..6 {
        let mut size = [0u8; 6];
        size[i] = 1;
        assert!(!OcidV0::from_parts(size, [0; 32]).is_empty());
    }
    // The hash does not count.
    assert!(OcidV0::from_parts([0; 6], [0xFF; 32]).is_empty());
}

#[test]
fn parsing_rejects_other_versions() {
    let mut bytes = sample().into_bytes();
    for version in 1..=255u8 {
        bytes[0] = version;
        assert!(OcidV0::from_bytes(bytes).is_none());
        assert!(OcidV0::from_bytes_ref(&bytes).is_none());
        assert!(OcidV0::from_slice(&bytes).is_none());
        assert!(OcidV0::from_raw(RawOcidV0::from_bytes(bytes)).is_none());
    }
    bytes[0] = 0;
    assert!(OcidV0::from_bytes(bytes).is_some());
}

#[test]
fn parsing_accepts_any_size_and_hash() {
    let mut bytes = [0xFFu8; 39];
    bytes[0] = 0;
    let id = OcidV0::from_bytes(bytes).unwrap();
    assert_eq!(id.size(), &[0xFF; 6]);
    assert_eq!(id.hash(), &[0xFF; 32]);
}

#[test]
fn bytes_round_trip() {
    let mut rng = OsRng;
    for _ in 0..256 {
        let id = random_id(&mut rng);
        assert_eq!(OcidV0::from_bytes(id.into_bytes()), Some(id));
        assert_eq!(OcidV0::from_bytes_ref(&id.as_bytes()), Some(id));
        assert_eq!(OcidV0::from_bytes_unchecked(id.into_bytes()), id);
        assert_eq!(OcidV0::from_bytes_ref_unchecked(&id.into_bytes()), id);
        assert_eq!(OcidV0::from_raw(id.into_raw()), Some(id));
        assert_eq!(OcidV0::from_raw_unchecked(*id.as_raw()), id);
        assert_eq!(RawOcidV0::from_bytes(id.into_bytes()), id.into_raw());
        assert_eq!(id.into_raw().as_bytes(), id.into_bytes());
    }
}

#[test]
fn from_slice_splits_off_the_rest() {
    let id = sample();
    let mut buffer = id.into_bytes().to_vec();
    buffer.extend_from_slice(&[9, 8, 7]);
    let (parsed, rest) = OcidV0::from_slice(&buffer).unwrap();
    assert_eq!(parsed, id);
    assert_eq!(rest, &[9, 8, 7]);

    let (parsed, rest) = OcidV0::from_slice(&buffer[..39]).unwrap();
    assert_eq!(parsed, id);
    assert!(rest.is_empty());
}

#[test]
fn from_slice_wants_a_whole_record() {
    let bytes = sample().into_bytes();
    assert!(OcidV0::from_slice(&bytes[..38]).is_none());
    assert!(OcidV0::from_slice(&[]).is_none());
    assert!(OcidV0::from_slice(&[0]).is_none());
}

#[test]
fn golden_text_of_size_one() {
    let id = OcidV0::from_parts([0, 0, 0, 0, 0, 1], [0; 32]);
    let mut buf = [0u8; BASE64_LEN];
    let text = id.encode_base64(&mut buf);
    let expected = format!("{}F{}", "-".repeat(9), "-".repeat(42));
    assert_eq!(text.len(), 52);
    assert_eq!(text, expected);
    assert_eq!(id.to_base64_text(), expected);
    assert_eq!(id.with_base64(|text| text.to_owned()), expected);
    assert_eq!(id.into_raw().to_base64_text(), expected);
    assert_eq!(Ocid::from(id).to_base64_text(), expected);
}

#[test]
fn documented_text_round_trips() {
    let text = "------IsAAc5y5h0P2AEb3mPtfrloZ2IVxrdMhEfUeAeo6iwUjr-";
    // Undo the encoding by hand: 52 digits of six bits are 39 bytes.
    let mut bits = Vec::new();
    for c in text.bytes() {
        let digit = ocid::base64::ALPHABET.iter().position(|s| *s == c).unwrap();
        for shift in (0..6).rev() {
            bits.push((digit >> shift) & 1);
        }
    }
    let mut bytes = [0u8; 39];
    for (i, byte) in bytes.iter_mut().enumerate() {
        for bit in &bits[i * 8..(i + 1) * 8] {
            *byte = (*byte << 1) | (*bit as u8);
        }
    }
    let id = OcidV0::from_bytes(bytes).unwrap();
    assert_eq!(id.to_base64_text(), text);
}

#[test]
fn order_is_the_same_raw_and_as_text() {
    let mut rng = OsRng;
    for _ in 0..512 {
        let a = random_id(&mut rng);
        let mut b = random_id(&mut rng);
        if rng.next_u32() % 2 == 0 {
            // Same size: the hash decides.
            b = OcidV0::from_parts(*a.size(), *b.hash());
        }

        let direct_ord = a.cmp(&b);
        let base64_ord = a.to_base64_text().cmp(&b.to_base64_text());

        assert_eq!(direct_ord, base64_ord);
        assert_eq!(a.partial_cmp(&b), Some(direct_ord));
        assert_eq!(direct_ord, a.into_bytes().cmp(&b.into_bytes()));
        assert_eq!(direct_ord, a.body().cmp(&b.body()));
        assert_eq!(a == b, a.to_base64_text() == b.to_base64_text());
    }
}

#[test]
fn smaller_content_sorts_first() {
    let small = OcidV0::from_parts([0, 0, 0, 0, 0, 2], [0xFF; 32]);
    let large = OcidV0::from_parts([0, 0, 0, 0, 1, 0], [0x00; 32]);
    assert!(small < large);
    assert!(small.to_base64_text() < large.to_base64_text());
    let low = OcidV0::from_parts([0, 0, 0, 0, 0, 2], [0x00; 32]);
    assert!(low < small);
    assert!(low.to_base64_text() < small.to_base64_text());
    assert!(small == small);
    assert!(small != low);
}

#[test]
fn equal_ids_hash_alike() {
    let mut set = HashSet::new();
    set.insert(sample());
    assert!(set.contains(&OcidV0::from_bytes(sample().into_bytes()).unwrap()));
    assert!(!set.contains(&OcidV0::empty()));
}

#[test]
fn new_hashes_the_content() {
    let content = b"hello world";
    let id = OcidV0::new(content).unwrap();
    assert_eq!(id.version(), 0);
    assert_eq!(id.size_u64(), 11);
    assert_eq!(id.size(), &[0, 0, 0, 0, 0, 11]);
    assert_eq!(id.hash(), blake3::hash(content).as_bytes());
    // A hash is not its input handed back.
    assert_ne!(&id.hash()[..11], &content[..]);
}

#[test]
fn new_of_nothing_is_empty_with_the_hash_of_nothing() {
    let id = OcidV0::new(&[]).unwrap();
    assert!(id.is_empty());
    let expected: [u8; 32] = [
        0xaf, 0x13, 0x49, 0xb9, 0xf5, 0xf9, 0xa1, 0xa6, 0xa0, 0x40, 0x4d, 0xea, 0x36, 0xdc, 0xc9,
        0x49, 0x9b, 0xcb, 0x25, 0xc9, 0xad, 0xc1, 0x12, 0xb7, 0xcc, 0x9a, 0x93, 0xca, 0xe4, 0x1f,
        0x32, 0x62,
    ];
    assert_eq!(id.hash(), &expected);
}

#[test]
fn from_len_and_hash_checks_the_length() {
    let hash = [7u8; 32];
    let id = OcidV0::from_len_and_hash(0x0000_FFFF_FFFF_FFFF, hash).unwrap();
    assert_eq!(id.size(), &[0xFF; 6]);
    assert_eq!(id.hash(), &hash);
    assert!(OcidV0::from_len_and_hash(0x0001_0000_0000_0000, hash).is_none());
    assert!(OcidV0::from_len_and_hash(u64::MAX, hash).is_none());
    assert_eq!(OcidV0::from_len_and_hash(0, hash), Some(OcidV0::from_parts([0; 6], hash)));
}

#[test]
fn from_digest_takes_any_digest() {
    let content = [5u8; 300];
    let id = OcidV0::from_digest(&content, |bytes| [bytes[0] + 1; 32]).unwrap();
    assert_eq!(id.size(), &[0, 0, 0, 0, 1, 44]);
    assert_eq!(id.size_u64(), 300);
    assert_eq!(id.hash(), &[6; 32]);
    assert_eq!(id.version(), 0);

    let same = OcidV0::from_digest(&content, |bytes| *blake3::hash(bytes).as_bytes());
    assert_eq!(same, OcidV0::new(&content));
}

#[test]
fn with_size_keeps_the_hash() {
    let id = sample().with_size([9, 9, 9, 9, 9, 9]);
    assert_eq!(id.size(), &[9; 6]);
    assert_eq!(id.hash(), sample().hash());
    assert_eq!(id.version(), 0);
}

#[test]
fn envelope_stands_for_the_record() {
    let id = sample();
    let any = Ocid::from(id);
    assert_eq!(any.to_v0(), id);
    assert_eq!(Ocid::from(id.into_raw()).to_v0(), id);
    assert_eq!(any.size_u64(), 0x0001_0203);
    assert_eq!(any.size_u64(), id.size_u64());
    assert_eq!(any.with_base64(|text| text.len()), 52);
    assert_eq!(any.to_base64_text(), id.to_base64_text());
    let Ocid::V0 { size, hash } = any else {
        panic!("another version");
    };
    assert_eq!(&size, id.size());
    assert_eq!(&hash, id.hash());
}

#[test]
fn slices_flatten_in_order() {
    let a = sample();
    let b = OcidV0::empty();
    let c = OcidV0::from_parts([1; 6], [2; 32]);
    let ids = [a, b, c];

    let raws = OcidV0::as_raw_slice(&ids);
    assert_eq!(raws, vec![a.into_raw(), b.into_raw(), c.into_raw()]);

    let bytes = OcidV0::as_bytes_slice(&ids);
    assert_eq!(bytes.len(), 3 * 39);
    assert_eq!(&bytes[..39], &a.into_bytes()[..]);
    assert_eq!(&bytes[39..78], &b.into_bytes()[..]);
    assert_eq!(&bytes[78..], &c.into_bytes()[..]);
    assert_eq!(RawOcidV0::slice_as_bytes(&raws), bytes);

    assert!(OcidV0::as_bytes_slice(&[]).is_empty());
    assert!(OcidV0::as_raw_slice(&[]).is_empty());
}

#[test]
fn encoding_fills_a_buffer_that_holds_nothing() {
    let mut buf = [MaybeUninit::<u8>::uninit(); BASE64_LEN];
    sample().encode_base64_uninit(&mut buf);
    sample().into_raw().encode_base64_uninit(&mut buf);
    assert_eq!(buf.len(), 52);
}

#[test]
fn raw_parts_keep_any_version() {
    let mut bytes = sample().into_bytes();
    bytes[0] = 7;
    let raw = RawOcidV0::from_bytes(bytes);
    assert_eq!(raw.version, 7);
    assert_eq!(raw.into_bytes(), bytes);
    assert_eq!(raw.as_bytes(), bytes);
    let mut buf = [0u8; BASE64_LEN];
    // 7 is 000001 11: the first digit is 1, the second starts with 11.
    assert!(raw.encode_base64(&mut buf).starts_with("0k"));
    assert_eq!(raw.with_base64(|text| text.len()), 52);
}

#[test]
fn default_raw_parts_are_all_zero() {
    let raw = RawOcidV0::default();
    assert_eq!(raw.into_bytes(), [0u8; 39]);
    assert_eq!(raw, OcidV0::empty().into_raw());
    assert_eq!(RawOcidV0::from(sample()), sample().into_raw());
}
