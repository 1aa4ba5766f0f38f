use hsluv::hex::{channel_to_byte, decode_hex, encode_hex, hex_digit, Rgb8};

fn rgb(r: u8, g: u8, b: u8) -> Rgb8 {
    Rgb8 { r, g, b }
}

#[test]
fn decodes_with_and_without_hash() {
    assert_eq!(decode_hex("#33aabb"), Some(rgb(0x33, 0xaa, 0xbb)));
    assert_eq!(decode_hex("33aabb"), Some(rgb(0x33, 0xaa, 0xbb)));
    assert_eq!(decode_hex("#77dd44"), Some(rgb(0x77, 0xdd, 0x44)));
}

#[test]
fn decodes_either_case() {
    assert_eq!(decode_hex("#CC99Aa"), Some(rgb(0xcc, 0x99, 0xaa)));
    assert_eq!(decode_hex("#FFffFF"), Some(rgb(255, 255, 255)));
}

#[test]
fn wrong_length_is_refused() {
    assert_eq!(decode_hex(""), None);
    assert_eq!(decode_hex("#"), None);
    assert_eq!(decode_hex("#abcde"), None);
    assert_eq!(decode_hex("#abcdef0"), None);
    assert_eq!(decode_hex("abcdef0"), None);
}

#[test]
fn only_one_hash_is_stripped() {
    assert_eq!(decode_hex("##abcdef"), None);
    assert_eq!(decode_hex("#abcde#"), Some(rgb(0xab, 0xcd, 0)));
}

#[test]
fn unparseable_pair_reads_as_zero() {
    assert_eq!(decode_hex("#zz1122"), Some(rgb(0, 0x11, 0x22)));
    assert_eq!(decode_hex("#11g122"), Some(rgb(0x11, 0, 0x22)));
    assert_eq!(decode_hex("#+f-f 1"), Some(rgb(0, 0, 0)));
}

#[test]
fn length_counts_bytes() {
    // the euro sign is three bytes: "ab" + "\u{20ac}" + "d" is six bytes
    assert_eq!(decode_hex("#ab\u{20ac}d"), Some(rgb(0xab, 0, 0)));
    assert_eq!(decode_hex("#\u{e9}\u{e9}\u{e9}"), Some(rgb(0, 0, 0)));
    assert_eq!(decode_hex("\u{e9}\u{e9}\u{e9}\u{e9}"), None);
}

#[test]
fn encodes_lowercase_with_two_digits() {
    assert_eq!(encode_hex(rgb(0x33, 0xaa, 0xbb)), "#33aabb");
    assert_eq!(encode_hex(rgb(0, 0, 0x11)), "#000011");
    assert_eq!(encode_hex(rgb(0xcc, 0x99, 0xaa)), "#cc99aa");
    assert_eq!(encode_hex(rgb(0, 0, 0)), "#000000");
    assert_eq!(encode_hex(rgb(255, 255, 255)), "#ffffff");
    assert_eq!(encode_hex(rgb(0x0f, 0xf0, 0x01)), "#0ff001");
}

#[test]
fn every_byte_round_trips() {
    for v in 0..=255u8 {
        let c = rgb(v, 255 - v, v / 3);
        assert_eq!(decode_hex(&encode_hex(c)), Some(c));
    }
}

#[test]
fn channel_byte_scales_and_rounds() {
    assert_eq!(channel_to_byte(0), 0);
    assert_eq!(channel_to_byte(1000), 255);
    assert_eq!(channel_to_byte(2), 1);
    assert_eq!(channel_to_byte(1), 0);
    assert_eq!(channel_to_byte(200), 51);
    assert_eq!(channel_to_byte(667), 170);
}

#[test]
fn channel_byte_rounds_halves_up() {
    assert_eq!(channel_to_byte(100), 26);
    assert_eq!(channel_to_byte(300), 77);
    assert_eq!(channel_to_byte(500), 128);
    assert_eq!(channel_to_byte(700), 179);
    assert_eq!(channel_to_byte(900), 230);
}

#[test]
fn channel_byte_clamps() {
    assert_eq!(channel_to_byte(-1), 0);
    assert_eq!(channel_to_byte(-400), 0);
    assert_eq!(channel_to_byte(1001), 255);
    assert_eq!(channel_to_byte(i64::MAX), 255);
    assert_eq!(channel_to_byte(i64::MIN), 0);
}

#[test]
fn thousandths_read_back_within_half_a_byte_step() {
    for k in 0..=1000i64 {
        let c = rgb(channel_to_byte(k), channel_to_byte(1000 - k), channel_to_byte(k / 2));
        let back = decode_hex(&encode_hex(c)).unwrap();
        assert_eq!(back, c);
        let channel = k as f64 / 1000.0;
        let read = back.r as f64 / 255.0;
        assert!((read - channel).abs() <= 1.0 / 510.0 + 1e-12);
    }
}

#[test]
fn fixture_colours_keep_their_bytes() {
    for text in ["#33aabb", "#000011", "#77dd44", "#cc99aa"] {
        let c = decode_hex(text).unwrap();
        assert_eq!(encode_hex(c), text);
    }
}

#[test]
fn single_digits_read_in_either_case() {
    assert_eq!(hex_digit(b'0'), Some(0));
    assert_eq!(hex_digit(b'9'), Some(9));
    assert_eq!(hex_digit(b'a'), Some(10));
    assert_eq!(hex_digit(b'F'), Some(15));
    assert_eq!(hex_digit(b'g'), None);
    assert_eq!(hex_digit(b'G'), None);
    assert_eq!(hex_digit(b'#'), None);
    assert_eq!(hex_digit(b'+'), None);
}
