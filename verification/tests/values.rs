use hermes_usage::cost::{
    add_costs, aggregate_cost_string, cost_string, format_cost, parse_decimal,
    parse_signed_decimal, subtract, Cost,
};
use hermes_usage::counter::{checked_add, checked_delta, non_negative_i64};
use hermes_usage::digest::{
    digest_bytes, digest_parts, digest_value, source_file_incarnation, FileIdentity,
};
use hermes_usage::text::{ascii_lowercase, integer_text, natural_text, text_le, trim_text};
use hermes_usage::value::{
    read_counter, read_optional_decimal, read_optional_text, read_required_text, SourceValue,
};

fn text(s: &str) -> SourceValue {
    SourceValue::Text(s.as_bytes().to_vec())
}

#[test]
fn counters_are_checked() {
    assert_eq!(non_negative_i64(0, "x").unwrap(), 0);
    assert_eq!(non_negative_i64(i64::MAX, "x").unwrap(), i64::MAX);
    assert_eq!(non_negative_i64(-1, "x").unwrap_err().message(), "Hermes x 不能为负数");
    assert_eq!(checked_delta(5, 3, "x").unwrap(), 2);
    assert_eq!(
        checked_delta(i64::MAX, -1, "请求数").unwrap_err().message(),
        "计算 Hermes 请求数 delta 溢出"
    );
    assert_eq!(checked_add(5, 3, "x").unwrap(), 8);
    assert_eq!(
        checked_add(u64::MAX, 1, "请求数").unwrap_err().message(),
        "汇总 Hermes 请求数 溢出"
    );
}

#[test]
fn digests_are_sha256_of_the_framed_parts() {
    assert_eq!(digest_bytes(&[0, 255, 16]), "00ff10");
    assert_eq!(
        digest_value(b"abc"),
        "ba7816bf8f01cfea414140de5dae2223b00361a396177a9cb410ff61f20015ad"
    );
    assert_eq!(
        digest_parts(&[]),
        "e3b0c44298fc1c149afbf4c8996fb92427ae41e4649b934ca495991b7852b855"
    );
    assert_eq!(
        digest_parts(&["abc"]),
        "ce91dc5eec0139adf091900d225971d6ad246a845bad791b5693a9d0d55dd391"
    );
    assert_eq!(
        digest_parts(&[""]),
        "af5570f5a1810b7af78caf4bc70a660f0df51e42baf91d4de5b2328de0e83dfc"
    );
    assert_eq!(
        digest_parts(&["é"]),
        "065ba7d52bd28953872d7571d5849952b34f4b5409eb0a53ccbe8fc67c0ad68a"
    );
}

#[test]
fn framing_tells_parts_apart() {
    assert_eq!(
        digest_parts(&["a", "bc"]),
        "9a8acca1b6c6c0befd3fbc756aed625da998c998f7252e738c4ef061906b9b21"
    );
    assert_eq!(
        digest_parts(&["ab", "c"]),
        "43ee655579de01ca739b3f95c1c2d3f46d353b2c0df818064ea594506cdb2617"
    );
}

#[test]
fn incarnations_digest_the_identity_of_the_file() {
    let of = |identity: FileIdentity| source_file_incarnation(&identity);
    assert_eq!(
        of(FileIdentity::Unix { device: 1, inode: 2, birth: Some((1_700_000_000, 5)) }),
        "21b9c4442785e2529702b6bd0a76cc289158df9447607499b1a381c46b982250"
    );
    assert_eq!(
        of(FileIdentity::Unix { device: 1, inode: 2, birth: Some((-5, 0)) }),
        "7728ecba5ba450bae670cea12da07b2f6907d05185326522a886916ac4b43601"
    );
    assert_eq!(
        of(FileIdentity::Unix { device: 1, inode: 2, birth: None }),
        "a8798ce1a6f1c38ae065bfaeb81cc7beb7a89c3ed75a3f712a6207ff11a7c5c6"
    );
    assert_eq!(
        of(FileIdentity::Windows {
            volume: 7,
            index_high: 1,
            index_low: 0xabcdef01,
            creation_time: 99
        }),
        "c287a1447f196067a0cadf0509f44bc4b1c4d1f83a4cf38c9eb4663da4504913"
    );
    assert_eq!(
        of(FileIdentity::WindowsFallback { creation_time: 99 }),
        "c1740741a2760a6e5da544da2720c931b241e21e748c8599c9ad9056c302b325"
    );
    assert_eq!(
        of(FileIdentity::Other { length: 10, modified: None }),
        "23df839a2ee63555bdc62ab4f2e193a13c75f94764bf99fba6aa988631023e84"
    );
    assert_eq!(
        of(FileIdentity::Other { length: 10, modified: Some(123) }),
        "1078d503f8630aafcb8a072aae7aecc4afb29d25e690f7010e692e6aad054a0a"
    );
}

#[test]
fn texts_are_read_from_every_kind_of_value() {
    assert_eq!(read_optional_text(&SourceValue::Null).unwrap(), None);
    assert_eq!(read_optional_text(&text("é")).unwrap().unwrap(), "é");
    assert_eq!(read_optional_text(&SourceValue::Integer(-12)).unwrap().unwrap(), "-12");
    assert_eq!(
        read_optional_text(&SourceValue::Integer(i64::MIN)).unwrap().unwrap(),
        "-9223372036854775808"
    );
    assert_eq!(
        read_optional_text(&SourceValue::Real("1.5".to_string(), None)).unwrap().unwrap(),
        "1.5"
    );
    assert_eq!(
        read_optional_text(&SourceValue::Blob(vec![0xde, 0xad])).unwrap().unwrap(),
        "59ca84fb79f2a7447b9e82c7412df58c688910cba202b7d4e9bf329ce07f931c"
    );
    assert_eq!(
        read_optional_text(&SourceValue::Blob(Vec::new())).unwrap().unwrap(),
        "e3b0c44298fc1c149afbf4c8996fb92427ae41e4649b934ca495991b7852b855"
    );
    assert_eq!(read_required_text(&SourceValue::Null).unwrap(), "");
    assert_eq!(read_required_text(&text("x")).unwrap(), "x");
    let error = read_optional_text(&SourceValue::Text(vec![0x61, 0xff])).unwrap_err();
    assert_eq!(
        error.message(),
        "Hermes 文本字段不是 UTF-8: invalid utf-8 sequence of 1 bytes from index 1"
    );
}

#[test]
fn counters_are_read_from_every_kind_of_value() {
    let read = |value: SourceValue| read_counter(&value, "input_tokens");
    assert_eq!(read(SourceValue::Null).unwrap(), 0);
    assert_eq!(read(SourceValue::Integer(7)).unwrap(), 7);
    assert_eq!(read(SourceValue::Real("7".to_string(), Some(7))).unwrap(), 7);
    assert_eq!(read(SourceValue::Real("-0".to_string(), Some(0))).unwrap(), 0);
    assert_eq!(
        read(SourceValue::Real("9223372036854775808".to_string(), Some(1 << 63))).unwrap(),
        i64::MAX
    );
    assert_eq!(read(text(" 42\n")).unwrap(), 42);
    assert_eq!(read(text("+5")).unwrap(), 5);
    assert_eq!(read(text("9223372036854775807")).unwrap(), i64::MAX);
    let message = |value: SourceValue| read(value).unwrap_err().message().to_string();
    assert_eq!(message(SourceValue::Integer(-1)), "Hermes input_tokens 不能为负数");
    assert_eq!(
        message(SourceValue::Real("-1".to_string(), Some(-1))),
        "Hermes input_tokens 超出非负整数范围"
    );
    assert_eq!(
        message(SourceValue::Real("1e19".to_string(), Some(10_000_000_000_000_000_000))),
        "Hermes input_tokens 超出非负整数范围"
    );
    assert_eq!(
        message(SourceValue::Real("1.5".to_string(), None)),
        "Hermes input_tokens 不是非负整数"
    );
    assert_eq!(message(SourceValue::Blob(vec![1])), "Hermes input_tokens 不是非负整数");
    assert_eq!(
        message(text("9223372036854775808")),
        "Hermes input_tokens 超出 SQLite INTEGER 范围"
    );
    assert_eq!(
        message(text("-3")),
        "Hermes input_tokens 不是非负整数: invalid digit found in string"
    );
    assert_eq!(
        message(text(" ")),
        "Hermes input_tokens 不是非负整数: cannot parse integer from empty string"
    );
    assert_eq!(
        message(text("18446744073709551616")),
        "Hermes input_tokens 不是非负整数: number too large to fit in target type"
    );
    assert_eq!(
        message(SourceValue::Text(vec![0xff])),
        "Hermes input_tokens 不是有效文本: invalid utf-8 sequence of 1 bytes from index 0"
    );
}

#[test]
fn costs_are_read_from_every_kind_of_value() {
    let read = |value: SourceValue| read_optional_decimal(&value, "actual_cost_usd");
    assert_eq!(read(SourceValue::Null).unwrap(), None);
    assert_eq!(read(SourceValue::Integer(3)).unwrap(), Some(Cost::new(3, 0)));
    assert_eq!(
        read(SourceValue::Real("0.25".to_string(), None)).unwrap(),
        Some(Cost::new(25, 2))
    );
    assert_eq!(read(text(" \t")).unwrap(), None);
    assert_eq!(read(text(" 1.50 ")).unwrap(), Some(Cost::new(150, 2)));
    assert_eq!(
        read(text("-0.5")).unwrap_err().message(),
        "Hermes actual_cost_usd 不能为负数"
    );
    assert!(read(SourceValue::Blob(vec![0x12]))
        .unwrap_err()
        .message()
        .starts_with("Hermes actual_cost_usd 不是有效成本: "));
    assert!(read(SourceValue::Blob(Vec::new())).is_err());
    assert!(read(text("much")).unwrap_err().message().starts_with("Hermes actual_cost_usd 不是有效成本: "));
}

#[test]
fn costs_are_parsed_as_written() {
    assert_eq!(parse_decimal("1.000000", "c").unwrap(), Cost::new(1_000_000, 6));
    assert_eq!(parse_decimal("\t007.10 ", "c").unwrap(), Cost::new(710, 2));
    assert_eq!(parse_decimal("-0", "c").unwrap(), Cost::zero());
    assert_eq!(parse_decimal("5.", "c").unwrap(), Cost::new(5, 0));
    assert_eq!(parse_signed_decimal("-1.25", "c").unwrap(), Cost::new(-125, 2));
    assert_eq!(
        parse_signed_decimal("79228162514264337593543950335", "c").unwrap(),
        Cost { negative: false, magnitude: (1 << 96) - 1, scale: 0 }
    );
    assert!(parse_signed_decimal("79228162514264337593543950336", "c").is_err());
    // Zeros that do not fit are left off.
    assert_eq!(
        parse_decimal("9999999999999999999999999.000000", "c").unwrap(),
        Cost { negative: false, magnitude: 9_999_999_999_999_999_999_999_999_000, scale: 3 }
    );
    assert_eq!(
        parse_signed_decimal("-79228162514264337593543950335.00", "c").unwrap(),
        Cost { negative: true, magnitude: (1 << 96) - 1, scale: 0 }
    );
    assert_eq!(
        parse_decimal("0.000000000000000000000000000000", "c").unwrap(),
        Cost { negative: false, magnitude: 0, scale: 28 }
    );
    assert!(parse_signed_decimal("79228162514264337593543950336.0", "c").is_err());
    assert!(parse_signed_decimal("", "c").is_err());
    assert!(parse_signed_decimal("1.2.3", "c").is_err());
}

#[test]
fn costs_are_written_with_their_own_or_with_six_places() {
    assert_eq!(cost_string(&Cost::new(-125, 2)), "-1.25");
    assert_eq!(cost_string(&Cost::new(5, 3)), "0.005");
    assert_eq!(cost_string(&Cost::zero()), "0");
    assert_eq!(format_cost(&Cost::new(125, 2)), "1.250000");
    assert_eq!(format_cost(&Cost::zero()), "0.000000");
    assert_eq!(aggregate_cost_string(&Cost::new(-1, 0)), "-1.000000");
    // Further places are cut off.
    assert_eq!(format_cost(&Cost::new(19_999_999, 7)), "1.999999");
    assert_eq!(
        cost_string(&Cost { negative: false, magnitude: (1 << 96) - 1, scale: 28 }),
        "7.9228162514264337593543950335"
    );
    let widest = Cost { negative: true, magnitude: 9_999_999_999_999_999_999_999_999, scale: 0 };
    assert!(widest.can_print());
    assert_eq!(format_cost(&widest), "-9999999999999999999999999.000000");
    assert!(!Cost { negative: false, magnitude: (1 << 96) - 1, scale: 0 }.can_print());
}

#[test]
fn what_was_written_reads_back() {
    for c in [Cost::new(0, 0), Cost::new(123_456, 6), Cost::new(7, 0), Cost::new(700, 8)] {
        assert_eq!(parse_decimal(&cost_string(&c), "c").unwrap(), c);
        let fixed = parse_decimal(&format_cost(&c), "c").unwrap();
        assert_eq!(fixed.scale, 6);
        assert!(fixed.magnitude * 100 == c.magnitude * 10u128.pow(8 - c.scale));
    }
}

#[test]
fn costs_are_subtracted_and_added_exactly() {
    assert_eq!(subtract(Cost::new(3, 0), Cost::new(1_000_000, 6)), Cost::new(2_000_000, 6));
    assert_eq!(subtract(Cost::new(1, 1), Cost::new(25, 2)), Cost::new(-15, 2));
    assert_eq!(subtract(Cost::new(15, 1), Cost::new(150, 2)), Cost::new(0, 2));
    assert_eq!(subtract(Cost::zero(), Cost::new(25, 2)), Cost::new(-25, 2));
    assert_eq!(subtract(Cost::new(25, 2), Cost::new(0, 6)), Cost::new(25, 2));
    assert_eq!(subtract(Cost::zero(), Cost::new(0, 6)), Cost::new(0, 6));
    assert_eq!(add_costs(Cost::new(1, 1), Cost::new(-25, 2)), Some(Cost::new(-15, 2)));
    assert_eq!(add_costs(Cost::zero(), Cost::new(-1_000_000, 6)), Some(Cost::new(-1_000_000, 6)));
    let most = Cost { negative: false, magnitude: (1 << 96) - 1, scale: 0 };
    assert_eq!(add_costs(most, Cost::new(1, 0)), None);
}

#[test]
fn texts_are_trimmed_lowered_ordered_and_numbers_written() {
    assert_eq!(trim_text(" \t\u{3000}a b\u{a0}\n"), "a b");
    assert_eq!(trim_text(" "), "");
    assert_eq!(ascii_lowercase("AbÉZ9"), "abÉz9");
    assert!(text_le("a", "ab"));
    assert!(text_le("Z", "a"));
    assert!(!text_le("b", "a"));
    assert!(text_le("", ""));
    assert_eq!(natural_text(u128::MAX), "340282366920938463463374607431768211455");
    assert_eq!(integer_text(i64::MIN), "-9223372036854775808");
}
