use base64::engine::general_purpose::{GeneralPurpose, NO_PAD};
use base64::alphabet::Alphabet;
use base64::Engine;
use ocid::base64::{encode_42, encode_groups, ALPHABET, LEN_39, LEN_42};
use rand_core::{OsRng, RngCore};

fn oracle() -> GeneralPurpose {
    let symbols = core::str::from_utf8(&ALPHABET).unwrap();
    GeneralPurpose::new(&Alphabet::new(symbols).unwrap(), NO_PAD)
}

// The encoder agrees with a general-purpose Base64 encoder that is given the
// same alphabet.
#[test]
fn encode_base8_39() {
    let mut rng = OsRng;
    let engine = oracle();
    let mut base64_buf = [0u8; LEN_39 * 2];
    let mut crate_buf = [0u8; LEN_39];

    for _ in 0..2048 {
        let mut bytes = [0u8; 39];
        rng.fill_bytes(&mut bytes);

        let base64_len = engine.encode_slice(&bytes, &mut base64_buf).unwrap();
        assert_eq!(base64_len, LEN_39);
        let base64 = core::str::from_utf8(&base64_buf[..base64_len]).unwrap();

        let encoded = ocid::base64::encode_base8_39(&bytes, &mut crate_buf);

        assert_eq!(encoded, base64);
    }
}

#[test]
fn encode_42_agrees_with_general_encoder() {
    let mut rng = OsRng;
    let engine = oracle();
    let mut base64_buf = [0u8; LEN_42 * 2];
    let mut crate_buf = [0u8; LEN_42];

    for _ in 0..2048 {
        let mut bytes = [0u8; 42];
        rng.fill_bytes(&mut bytes);

        let base64_len = engine.encode_slice(&bytes, &mut base64_buf).unwrap();
        assert_eq!(base64_len, LEN_42);
        let base64 = core::str::from_utf8(&base64_buf[..base64_len]).unwrap();

        let encoded = encode_42(&bytes, &mut crate_buf);

        assert_eq!(encoded, base64);
    }
}

// Sanity check that `ALPHABET` is indeed sorted.
#[test]
fn sorted_alphabet() {
    for i in 0..(ALPHABET.len() - 1) {
        let j = i + 1;

        let a = ALPHABET[i] as char;
        let b = ALPHABET[j] as char;

        assert!(
            a < b,
            "alphabet not sorted; {a} at {i} is not less than {b} at {j}",
            i = i,
            j = j,
            a = a,
            b = b,
        );
    }
}

#[test]
fn alphabet_is_the_documented_table() {
    let table = "-0123456789ABCDEFGHIJKLMNOPQRSTUVWXYZ_abcdefghijklmnopqrstuvwxyz";
    assert_eq!(table.len(), 64);
    assert_eq!(&ALPHABET[..], table.as_bytes());
    assert_eq!(ALPHABET[0], b'-');
    assert_eq!(ALPHABET[1], b'0');
    assert_eq!(ALPHABET[10], b'9');
    assert_eq!(ALPHABET[11], b'A');
    assert_eq!(ALPHABET[36], b'Z');
    assert_eq!(ALPHABET[37], b'_');
    assert_eq!(ALPHABET[38], b'a');
    assert_eq!(ALPHABET[63], b'z');
}

#[test]
fn output_lengths() {
    assert_eq!(LEN_39, 39 / 3 * 4);
    assert_eq!(LEN_39, 52);
    assert_eq!(LEN_42, 42 / 3 * 4);
    assert_eq!(LEN_42, 56);
}

#[test]
fn one_group_of_three_bytes() {
    // 0x4D 0x61 0x6E is 010011 010110 000101 101110: 19, 22, 5, 46.
    let mut buf = [0u8; 4];
    encode_groups(&[0x4D, 0x61, 0x6E], &mut buf);
    assert_eq!(&buf, b"IL4i");
}

#[test]
fn one_group_of_six_bytes() {
    // The digits 0, 1, 2, 3, 62, 63, 37, 10.
    let mut buf = [0u8; 8];
    encode_groups(&[0x00, 0x10, 0x83, 0xFB, 0xF9, 0x4A], &mut buf);
    assert_eq!(&buf, b"-012yz_9");
}

#[test]
fn nine_bytes_take_a_long_and_a_short_group() {
    let mut buf = [0u8; 12];
    encode_groups(&[0xFF; 9], &mut buf);
    assert_eq!(&buf, b"zzzzzzzzzzzz");
    let mut buf = [b'x'; 12];
    encode_groups(&[0, 0, 0, 0, 0, 0, 0, 0, 1], &mut buf);
    assert_eq!(&buf, b"-----------0");
}

#[test]
fn empty_input_gives_empty_text() {
    let mut buf = [0u8; 0];
    encode_groups(&[], &mut buf);
    assert_eq!(buf.len(), 0);
}

#[test]
fn all_zero_and_all_one_inputs() {
    let mut buf = [0u8; LEN_39];
    assert_eq!(ocid::base64::encode_base8_39(&[0; 39], &mut buf), "-".repeat(52));
    assert_eq!(ocid::base64::encode_base8_39(&[0xFF; 39], &mut buf), "z".repeat(52));
    let mut buf = [0u8; LEN_42];
    assert_eq!(encode_42(&[0; 42], &mut buf), "-".repeat(56));
    assert_eq!(encode_42(&[0xFF; 42], &mut buf), "z".repeat(56));
}

#[test]
fn text_is_what_the_buffer_holds() {
    let mut bytes = [0u8; 39];
    for (i, b) in bytes.iter_mut().enumerate() {
        *b = (i * 7 + 3) as u8;
    }
    let mut buf = [0u8; LEN_39];
    let text = ocid::base64::encode_base8_39(&bytes, &mut buf).to_owned();
    assert_eq!(text.as_bytes(), &buf[..]);
    assert_eq!(text.len(), 52);
    assert!(text.bytes().all(|c| ALPHABET.contains(&c)));
    assert!(!text.contains('='));
}

#[test]
fn text_keeps_the_order_of_the_bytes() {
    let mut rng = OsRng;
    let mut buf_a = [0u8; LEN_42];
    let mut buf_b = [0u8; LEN_42];
    for _ in 0..512 {
        let mut a = [0u8; 42];
        let mut b = [0u8; 42];
        rng.fill_bytes(&mut a);
        rng.fill_bytes(&mut b);
        // Make a long common prefix likely.
        let keep = (rng.next_u32() % 43) as usize;
        b[..keep].copy_from_slice(&a[..keep]);
        let text_a = encode_42(&a, &mut buf_a);
        let text_b = encode_42(&b, &mut buf_b);
        assert_eq!(a.cmp(&b), text_a.cmp(text_b));
    }
}
