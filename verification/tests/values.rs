use std::cmp::Ordering;
use yclass::address::parse_address;
use yclass::bytes::{load_u16, load_u32, load_u64, load_u8, ByteOrder};
use yclass::field::FieldKind;
use yclass::spider::input::{
    collect_options, parse_kind_to_value, DisplayMode, ParseError, SearchField, SpiderError,
};
use yclass::spider::FilterMode;
use yclass::text::{parse_signed, parse_unsigned};
use yclass::value::{bytes_to_value, Value};

const F32_SAMPLES: [f32; 14] = [
    0.0,
    -0.0,
    1.0,
    -1.0,
    1.5,
    -1.5,
    f32::MIN_POSITIVE,
    -f32::MIN_POSITIVE,
    1.0e-40,
    f32::MAX,
    f32::MIN,
    f32::INFINITY,
    f32::NEG_INFINITY,
    f32::NAN,
];

const F64_SAMPLES: [f64; 14] = [
    0.0,
    -0.0,
    1.0,
    -1.0,
    2.25,
    -2.25,
    f64::MIN_POSITIVE,
    -f64::MIN_POSITIVE,
    1.0e-310,
    f64::MAX,
    f64::MIN,
    f64::INFINITY,
    f64::NEG_INFINITY,
    f64::NAN,
];

#[test]
fn kinds_of_values() {
    assert_eq!(Value::U8(1).kind(), FieldKind::U8);
    assert_eq!(Value::I8(1).kind(), FieldKind::I8);
    assert_eq!(Value::U16(1).kind(), FieldKind::U16);
    assert_eq!(Value::I16(1).kind(), FieldKind::I16);
    assert_eq!(Value::U32(1).kind(), FieldKind::U32);
    assert_eq!(Value::I32(1).kind(), FieldKind::I32);
    assert_eq!(Value::U64(1).kind(), FieldKind::U64);
    assert_eq!(Value::I64(1).kind(), FieldKind::I64);
    assert_eq!(Value::F32(1).kind(), FieldKind::F32);
    assert_eq!(Value::F64(1).kind(), FieldKind::F64);
}

#[test]
fn sizes_and_labels_of_kinds() {
    let sizes = [
        (FieldKind::I8, 1, "I8"),
        (FieldKind::U8, 1, "U8"),
        (FieldKind::I16, 2, "I16"),
        (FieldKind::U16, 2, "U16"),
        (FieldKind::I32, 4, "I32"),
        (FieldKind::U32, 4, "U32"),
        (FieldKind::F32, 4, "F32"),
        (FieldKind::I64, 8, "I64"),
        (FieldKind::U64, 8, "U64"),
        (FieldKind::F64, 8, "F64"),
    ];
    for (kind, size, label) in sizes {
        assert_eq!(kind.size(), size);
        assert_eq!(kind.label(), Some(label));
        assert!(kind.numeric());
    }
    for (kind, size) in [
        (FieldKind::Unk8, 1),
        (FieldKind::Unk16, 2),
        (FieldKind::Unk32, 4),
        (FieldKind::Unk64, 8),
        (FieldKind::Bool, 1),
        (FieldKind::Ptr, 8),
        (FieldKind::StrPtr, 8),
    ] {
        assert_eq!(kind.size(), size);
        assert_eq!(kind.label(), None);
        assert!(!kind.numeric());
    }
}

#[test]
fn integers_compare_as_their_numbers() {
    let samples: [i64; 9] = [i64::MIN, -300, -1, 0, 1, 2, 127, 300, i64::MAX];
    for a in samples {
        for b in samples {
            assert_eq!(Value::I64(a).compare(&Value::I64(b)), a.partial_cmp(&b));
            assert_eq!(Value::I64(a) == Value::I64(b), a == b);
            assert_eq!(Value::I64(a) < Value::I64(b), a < b);
            let (x, y) = (a as i8, b as i8);
            assert_eq!(Value::I8(x).compare(&Value::I8(y)), x.partial_cmp(&y));
            let (x, y) = (a as i16, b as i16);
            assert_eq!(Value::I16(x).compare(&Value::I16(y)), x.partial_cmp(&y));
            let (x, y) = (a as i32, b as i32);
            assert_eq!(Value::I32(x).compare(&Value::I32(y)), x.partial_cmp(&y));
            let (x, y) = (a as u8, b as u8);
            assert_eq!(Value::U8(x).compare(&Value::U8(y)), x.partial_cmp(&y));
            let (x, y) = (a as u16, b as u16);
            assert_eq!(Value::U16(x).compare(&Value::U16(y)), x.partial_cmp(&y));
            let (x, y) = (a as u32, b as u32);
            assert_eq!(Value::U32(x).compare(&Value::U32(y)), x.partial_cmp(&y));
            let (x, y) = (a as u64, b as u64);
            assert_eq!(Value::U64(x).compare(&Value::U64(y)), x.partial_cmp(&y));
            assert_eq!(Value::U64(x) >= Value::U64(y), x >= y);
        }
    }
}

#[test]
fn floats_compare_as_their_numbers() {
    for a in F32_SAMPLES {
        for b in F32_SAMPLES {
            let (x, y) = (Value::F32(a.to_bits()), Value::F32(b.to_bits()));
            assert_eq!(x.compare(&y), a.partial_cmp(&b), "{a} and {b}");
            assert_eq!(x == y, a == b, "{a} == {b}");
            assert_eq!(x != y, a != b, "{a} != {b}");
            assert_eq!(x < y, a < b, "{a} < {b}");
            assert_eq!(x <= y, a <= b, "{a} <= {b}");
            assert_eq!(x > y, a > b, "{a} > {b}");
            assert_eq!(x >= y, a >= b, "{a} >= {b}");
            assert_eq!(x.nan(), a.is_nan());
        }
    }
    for a in F64_SAMPLES {
        for b in F64_SAMPLES {
            let (x, y) = (Value::F64(a.to_bits()), Value::F64(b.to_bits()));
            assert_eq!(x.compare(&y), a.partial_cmp(&b), "{a} and {b}");
            assert_eq!(x == y, a == b, "{a} == {b}");
            assert_eq!(x != y, a != b, "{a} != {b}");
            assert_eq!(x < y, a < b, "{a} < {b}");
            assert_eq!(x <= y, a <= b, "{a} <= {b}");
            assert_eq!(x > y, a > b, "{a} > {b}");
            assert_eq!(x >= y, a >= b, "{a} >= {b}");
            assert_eq!(x.nan(), a.is_nan());
        }
    }
}

#[test]
fn values_of_two_kinds_are_neither_equal_nor_ordered() {
    assert!(Value::U8(1) != Value::I8(1));
    assert!(!(Value::U8(1) == Value::U16(1)));
    assert_eq!(Value::U8(1).partial_cmp(&Value::U16(2)), None);
    assert!(!(Value::U8(1) < Value::U16(2)));
}

#[test]
fn one_plus_ordering() {
    assert_eq!(Value::I32(-1).compare(&Value::I32(0)), Some(Ordering::Less));
    assert_eq!(Value::I32(7).compare(&Value::I32(7)), Some(Ordering::Equal));
    assert_eq!(Value::U8(200).compare(&Value::U8(100)), Some(Ordering::Greater));
    assert_eq!(
        Value::F32(f32::NAN.to_bits()).compare(&Value::F32(1.0f32.to_bits())),
        None
    );
}

fn word(bytes: &[u8]) -> [u8; 8] {
    let mut word = [0xEEu8; 8];
    word[..bytes.len()].copy_from_slice(bytes);
    word
}

#[test]
fn bytes_are_read_in_host_order_as_the_machine_reads_them() {
    let host = ByteOrder::host();
    assert_eq!(bytes_to_value(&word(&(-2i8).to_ne_bytes()), FieldKind::I8, host), Value::I8(-2));
    assert_eq!(bytes_to_value(&word(&200u8.to_ne_bytes()), FieldKind::U8, host), Value::U8(200));
    assert_eq!(
        bytes_to_value(&word(&(-300i16).to_ne_bytes()), FieldKind::I16, host),
        Value::I16(-300)
    );
    assert_eq!(
        bytes_to_value(&word(&60000u16.to_ne_bytes()), FieldKind::U16, host),
        Value::U16(60000)
    );
    assert_eq!(
        bytes_to_value(&word(&i32::MIN.to_ne_bytes()), FieldKind::I32, host),
        Value::I32(i32::MIN)
    );
    assert_eq!(
        bytes_to_value(&word(&0xDEAD_BEEFu32.to_ne_bytes()), FieldKind::U32, host),
        Value::U32(0xDEAD_BEEF)
    );
    assert_eq!(
        bytes_to_value(&word(&i64::MIN.to_ne_bytes()), FieldKind::I64, host),
        Value::I64(i64::MIN)
    );
    assert_eq!(
        bytes_to_value(&word(&(-1i64).to_ne_bytes()), FieldKind::I64, host),
        Value::I64(-1)
    );
    assert_eq!(
        bytes_to_value(&word(&u64::MAX.to_ne_bytes()), FieldKind::U64, host),
        Value::U64(u64::MAX)
    );
    assert_eq!(
        bytes_to_value(&word(&1.5f32.to_ne_bytes()), FieldKind::F32, host),
        Value::F32(1.5f32.to_bits())
    );
    assert_eq!(
        bytes_to_value(&word(&(-2.5f64).to_ne_bytes()), FieldKind::F64, host),
        Value::F64((-2.5f64).to_bits())
    );
}

#[test]
fn bytes_are_read_in_either_order() {
    let bytes = [0x01, 0x02, 0x03, 0x04, 0x05, 0x06, 0x07, 0x88];
    assert_eq!(load_u8(&bytes, ByteOrder::Little), 0x01);
    assert_eq!(load_u8(&bytes, ByteOrder::Big), 0x01);
    assert_eq!(load_u16(&bytes, ByteOrder::Little), 0x0201);
    assert_eq!(load_u16(&bytes, ByteOrder::Big), 0x0102);
    assert_eq!(load_u32(&bytes, ByteOrder::Little), 0x0403_0201);
    assert_eq!(load_u32(&bytes, ByteOrder::Big), 0x0102_0304);
    assert_eq!(load_u64(&bytes, ByteOrder::Little), 0x8807_0605_0403_0201);
    assert_eq!(load_u64(&bytes, ByteOrder::Big), 0x0102_0304_0506_0788);
    assert_eq!(
        bytes_to_value(&bytes, FieldKind::I64, ByteOrder::Little),
        Value::I64(0x8807_0605_0403_0201u64 as i64)
    );
    assert_eq!(
        bytes_to_value(&[0xFF, 0xFE, 0, 0, 0, 0, 0, 0], FieldKind::I16, ByteOrder::Big),
        Value::I16(-2)
    );
    assert_eq!(
        bytes_to_value(&[0xFF, 0xFE, 0, 0, 0, 0, 0, 0], FieldKind::I16, ByteOrder::Little),
        Value::I16(-257)
    );
}

#[test]
fn decimal_text_is_read_as_std_reads_it() {
    let texts = [
        "", "0", "7", "42", "+42", "-42", "-0", "+0", "007", "-", "+", "--1", "+-1", "-+1", "1 ",
        " 1", "1_0", "0x10", "12a", "127", "128", "-128", "-129", "255", "256", "32767", "32768",
        "-32768", "-32769", "65535", "65536", "2147483647", "2147483648", "-2147483648",
        "-2147483649", "4294967295", "4294967296", "9223372036854775807", "9223372036854775808",
        "-9223372036854775808", "-9223372036854775809", "18446744073709551615",
        "18446744073709551616", "99999999999999999999999999", "١٢٣", "1é",
    ];
    for text in texts {
        let read = |kind| parse_kind_to_value(kind, text).ok();
        assert_eq!(read(FieldKind::I8), text.parse().ok().map(Value::I8), "{text:?}");
        assert_eq!(read(FieldKind::I16), text.parse().ok().map(Value::I16), "{text:?}");
        assert_eq!(read(FieldKind::I32), text.parse().ok().map(Value::I32), "{text:?}");
        assert_eq!(read(FieldKind::I64), text.parse().ok().map(Value::I64), "{text:?}");
        assert_eq!(read(FieldKind::U8), text.parse().ok().map(Value::U8), "{text:?}");
        assert_eq!(read(FieldKind::U16), text.parse().ok().map(Value::U16), "{text:?}");
        assert_eq!(read(FieldKind::U32), text.parse().ok().map(Value::U32), "{text:?}");
        assert_eq!(read(FieldKind::U64), text.parse().ok().map(Value::U64), "{text:?}");
    }
}

#[test]
fn a_parse_error_names_the_kind() {
    assert_eq!(
        parse_kind_to_value(FieldKind::U8, "256"),
        Err(ParseError { kind: FieldKind::U8 })
    );
    assert_eq!(parse_kind_to_value(FieldKind::U8, "255"), Ok(Value::U8(255)));
}

#[test]
fn numbers_are_read_in_a_radix_and_a_range() {
    assert_eq!(parse_unsigned("ff", 16, 255), Some(255));
    assert_eq!(parse_unsigned("FF", 16, 254), None);
    assert_eq!(parse_unsigned("zz", 36, 2000), Some(35 * 36 + 35));
    assert_eq!(parse_unsigned("12", 2, 100), None);
    assert_eq!(parse_unsigned("101", 2, 100), Some(5));
    assert_eq!(parse_signed("-80", 16, -128, 127), Some(-128));
    assert_eq!(parse_signed("-81", 16, -128, 127), None);
    assert_eq!(parse_signed("-5", 10, 0, 9), None);
    assert_eq!(parse_signed("-0", 10, 0, 9), Some(0));
}

#[test]
fn values_are_shown_as_std_shows_them() {
    let normal = DisplayMode::Normal;
    let hex = DisplayMode::Hex;
    for v in [i64::MIN, -129, -128, -1, 0, 1, 9, 10, 127, 128, 255, 256, 65535, i64::MAX] {
        assert_eq!(normal.format(Value::I64(v)), format!("{}", v));
        assert_eq!(hex.format(Value::I64(v)), format!("{:X}", v));
        assert_eq!(normal.format(Value::I32(v as i32)), format!("{}", v as i32));
        assert_eq!(hex.format(Value::I32(v as i32)), format!("{:X}", v as i32));
        assert_eq!(normal.format(Value::I16(v as i16)), format!("{}", v as i16));
        assert_eq!(hex.format(Value::I16(v as i16)), format!("{:X}", v as i16));
        assert_eq!(normal.format(Value::I8(v as i8)), format!("{}", v as i8));
        assert_eq!(hex.format(Value::I8(v as i8)), format!("{:X}", v as i8));
        assert_eq!(normal.format(Value::U64(v as u64)), format!("{}", v as u64));
        assert_eq!(hex.format(Value::U64(v as u64)), format!("{:X}", v as u64));
        assert_eq!(normal.format(Value::U32(v as u32)), format!("{}", v as u32));
        assert_eq!(hex.format(Value::U32(v as u32)), format!("{:X}", v as u32));
        assert_eq!(normal.format(Value::U16(v as u16)), format!("{}", v as u16));
        assert_eq!(hex.format(Value::U16(v as u16)), format!("{:X}", v as u16));
        assert_eq!(normal.format(Value::U8(v as u8)), format!("{}", v as u8));
        assert_eq!(hex.format(Value::U8(v as u8)), format!("{:X}", v as u8));
    }
    assert_eq!(normal.format(Value::I32(-42)), "-42");
    assert_eq!(hex.format(Value::I8(-1)), "FF");
    assert_eq!(hex.format(Value::U16(0xBEEF)), "BEEF");
}

#[test]
fn what_is_shown_reads_back() {
    for v in [i64::MIN, -32769, -129, -1, 0, 1, 127, 128, 255, 65536, i64::MAX] {
        let values = [
            Value::I8(v as i8),
            Value::I16(v as i16),
            Value::I32(v as i32),
            Value::I64(v),
            Value::U8(v as u8),
            Value::U16(v as u16),
            Value::U32(v as u32),
            Value::U64(v as u64),
        ];
        for value in values {
            let text = DisplayMode::Normal.format(value);
            assert_eq!(parse_kind_to_value(value.kind(), &text), Ok(value));
        }
    }
}

#[test]
fn addresses_are_read_as_hexadecimals() {
    assert_eq!(parse_address("0"), Some(0));
    assert_eq!(parse_address("10"), Some(0x10));
    assert_eq!(parse_address("0x10"), Some(0x10));
    assert_eq!(parse_address("7ffDEADbeef"), Some(0x7ff_DEAD_beef));
    assert_eq!(parse_address("0x7FFE0000"), Some(0x7FFE_0000));
    assert_eq!(parse_address("+1f"), Some(0x1f));
    assert_eq!(parse_address("0x+1f"), Some(0x1f));
    assert_eq!(parse_address("ffffffffffffffff"), Some(usize::MAX));
    assert_eq!(parse_address("10000000000000000"), None);
    assert_eq!(parse_address(""), None);
    assert_eq!(parse_address("0x"), None);
    assert_eq!(parse_address("0X10"), None);
    assert_eq!(parse_address("0x0x10"), None);
    assert_eq!(parse_address("+0x10"), None);
    assert_eq!(parse_address("-10"), None);
    assert_eq!(parse_address("12g"), None);
    assert_eq!(parse_address("1 2"), None);
    assert_eq!(parse_address("1_2"), None);
    assert_eq!(parse_address("é"), None);
    for text in ["0", "10", "+1f", "ffffffffffffffff", "10000000000000000", "", "+", "-1", "x"] {
        assert_eq!(parse_address(text), usize::from_str_radix(text, 16).ok(), "{text:?}");
    }
}

#[test]
fn options_are_collected_from_what_was_typed() {
    let options = collect_options("2", "4", "256", "0x7f00", Some(Value::I32(42))).unwrap();
    assert_eq!(options.depth, 2);
    assert_eq!(options.alignment, 4);
    assert_eq!(options.struct_size, 256);
    assert_eq!(options.address, 0x7f00);
    assert_eq!(options.value, Value::I32(42));
    assert!(options.offsets.is_empty());
}

#[test]
fn the_first_fault_among_the_fields_is_reported() {
    let value = Some(Value::U8(1));
    let fault = |a: &str, b: &str, c: &str, d: &str, v: Option<Value>| {
        collect_options(a, b, c, d, v).err()
    };
    assert_eq!(fault("", "", "", "", None), Some(SpiderError::Required(SearchField::MaxLevel)));
    assert_eq!(fault("x", "", "", "", None), Some(SpiderError::Invalid(SearchField::MaxLevel)));
    assert_eq!(fault("-1", "4", "8", "0", value), Some(SpiderError::Invalid(SearchField::MaxLevel)));
    assert_eq!(fault("1", "", "", "", None), Some(SpiderError::Required(SearchField::Alignment)));
    assert_eq!(fault("1", "0", "", "", None), Some(SpiderError::Invalid(SearchField::Alignment)));
    assert_eq!(fault("1", "a", "", "", None), Some(SpiderError::Invalid(SearchField::Alignment)));
    assert_eq!(fault("1", "4", "", "", None), Some(SpiderError::Required(SearchField::StructSize)));
    assert_eq!(
        fault("1", "4", "99999999999999999999999", "", None),
        Some(SpiderError::Invalid(SearchField::StructSize))
    );
    assert_eq!(fault("1", "4", "8", "", None), Some(SpiderError::AddressRequired));
    assert_eq!(fault("1", "4", "8", "zz", None), Some(SpiderError::InvalidAddress));
    assert_eq!(fault("1", "4", "8", "10", None), Some(SpiderError::ParseError));
    assert_eq!(fault("0", "1", "0", "0", value), None);
}

#[test]
fn values_are_laid_out_as_the_machine_lays_them_out() {
    let host = ByteOrder::host();
    assert_eq!(Value::I8(-2).to_bytes(host), (-2i8).to_ne_bytes());
    assert_eq!(Value::U8(200).to_bytes(host), 200u8.to_ne_bytes());
    assert_eq!(Value::I16(-300).to_bytes(host), (-300i16).to_ne_bytes());
    assert_eq!(Value::U16(60000).to_bytes(host), 60000u16.to_ne_bytes());
    assert_eq!(Value::I32(i32::MIN).to_bytes(host), i32::MIN.to_ne_bytes());
    assert_eq!(Value::U32(0xDEAD_BEEF).to_bytes(host), 0xDEAD_BEEFu32.to_ne_bytes());
    assert_eq!(Value::I64(-1).to_bytes(host), (-1i64).to_ne_bytes());
    assert_eq!(Value::I64(i64::MIN).to_bytes(host), i64::MIN.to_ne_bytes());
    assert_eq!(Value::U64(u64::MAX - 1).to_bytes(host), (u64::MAX - 1).to_ne_bytes());
    assert_eq!(Value::F32(1.5f32.to_bits()).to_bytes(host), 1.5f32.to_ne_bytes());
    assert_eq!(Value::F64((-2.5f64).to_bits()).to_bytes(host), (-2.5f64).to_ne_bytes());
    assert_eq!(Value::U32(0x0102_0304).to_bytes(ByteOrder::Little), [4, 3, 2, 1]);
    assert_eq!(Value::U32(0x0102_0304).to_bytes(ByteOrder::Big), [1, 2, 3, 4]);
    assert_eq!(Value::I16(-2).to_bytes(ByteOrder::Big), [0xff, 0xfe]);
    assert_eq!(
        Value::U64(0x0102_0304_0506_0708).to_bytes(ByteOrder::Big),
        [1, 2, 3, 4, 5, 6, 7, 8]
    );
}

#[test]
fn what_is_laid_out_reads_back() {
    for order in [ByteOrder::Little, ByteOrder::Big] {
        for v in [i64::MIN, -32769, -129, -1, 0, 1, 127, 128, 255, 65536, i64::MAX] {
            let values = [
                Value::I8(v as i8),
                Value::I16(v as i16),
                Value::I32(v as i32),
                Value::I64(v),
                Value::U8(v as u8),
                Value::U16(v as u16),
                Value::U32(v as u32),
                Value::U64(v as u64),
            ];
            for value in values {
                let bytes = value.to_bytes(order);
                assert_eq!(bytes.len(), value.kind().size());
                assert_eq!(bytes_to_value(&word(&bytes), value.kind(), order), value);
                assert_eq!(value.bits().to_le_bytes()[..bytes.len()], {
                    let mut low_first = bytes.clone();
                    if order == ByteOrder::Big {
                        low_first.reverse();
                    }
                    low_first
                });
            }
        }
    }
}

#[test]
fn the_kinds_and_modes_that_are_offered() {
    let labels: Vec<&str> =
        FieldKind::numeric_kinds().iter().map(|kind| kind.label().unwrap()).collect();
    assert_eq!(labels, ["I8", "I16", "I32", "I64", "U8", "U16", "U32", "U64", "F32", "F64"]);
    let modes: Vec<&str> = FilterMode::variants().iter().map(FilterMode::label).collect();
    assert_eq!(
        modes,
        [
            "Greater",
            "Greater or Equal",
            "Less",
            "Less or Equal",
            "Equal",
            "Not equal",
            "Changed",
            "Unchanged"
        ]
    );
}

#[test]
fn what_is_shown_in_hex_reads_back_in_hex() {
    for v in [0u64, 1, 9, 10, 15, 16, 255, 256, 0xDEAD_BEEF, u64::MAX] {
        let text = DisplayMode::Hex.format(Value::U64(v));
        assert_eq!(parse_unsigned(&text, 16, u64::MAX), Some(v));
        assert_eq!(parse_address(&text), Some(v as usize));
    }
}
