use paf::{ErrorKind, OptionalFields, PafRecord, Tag, Type};

#[test]
fn type_parse_int() {
    assert_eq!(Type::parse("i", "48730").unwrap().get_int(), Some(&48730));
    assert_eq!(Type::parse("i", "-12").unwrap().get_int(), Some(&-12));
    assert_eq!(Type::parse("i", "+12").unwrap().get_int(), Some(&12));
    assert_eq!(Type::parse("i", "007").unwrap().get_int(), Some(&7));
    assert_eq!(
        Type::parse("i", "9223372036854775807").unwrap().get_int(),
        Some(&i64::MAX)
    );
    assert_eq!(
        Type::parse("i", "-9223372036854775808").unwrap().get_int(),
        Some(&i64::MIN)
    );
    assert!(Type::parse("i", "9223372036854775808").is_none());
    assert!(Type::parse("i", "-9223372036854775809").is_none());
    assert!(Type::parse("i", "").is_none());
    assert!(Type::parse("i", "-").is_none());
    assert!(Type::parse("i", "+").is_none());
    assert!(Type::parse("i", "1 ").is_none());
    assert!(Type::parse("i", "--1").is_none());
    assert!(Type::parse("i", "1.0").is_none());
}

#[test]
fn type_parse_float_agrees_with_std() {
    let texts = [
        "0.0003", "1", "-1", "+1.5", "1.", ".5", "-.5e10", "1e5", "1E-5", "1e+5", "inf", "-inf",
        "+Infinity", "NaN", "nan", "INFINITY", "", ".", "+", "-", "e5", "1e", "1e+", "1.2.3",
        "1e5e5", "0x10", "1_000", " 1", "1 ", "infinit", "na", "++1", "1f", "١", "1e5.5", "-nan",
        "12345678901234567890123456789012345678901234567890", "1e99999999999999999999", "in f",
        ".e5", "5.e5", "+.e", "iNf", "nAn", "infinityy",
    ];
    for text in texts {
        let parsed = Type::parse("f", text);
        assert_eq!(
            parsed.is_some(),
            text.parse::<f64>().is_ok(),
            "text {:?}",
            text
        );
        if let Some(value) = parsed {
            assert_eq!(value.get_float().unwrap(), text);
            assert!(value.get_int().is_none());
        }
    }
    let de = Type::parse("f", "0.0003").unwrap();
    assert_eq!(de.get_float().unwrap().parse::<f64>().unwrap(), 0.0003);
}

#[test]
fn type_parse_text_and_char() {
    assert_eq!(Type::parse("Z", "770M1D").unwrap().get_string().unwrap(), "770M1D");
    assert_eq!(Type::parse("Z", "").unwrap().get_string().unwrap(), "");
    assert_eq!(Type::parse("A", "P").unwrap().get_char(), Some(&'P'));
    assert_eq!(Type::parse("A", "PQ").unwrap().get_char(), Some(&'P'));
    assert!(Type::parse("A", "").is_none());
    assert_eq!(Type::parse("B", "1,2").unwrap().get_string().unwrap(), "1,2");
    assert_eq!(Type::parse("", "x").unwrap().get_string().unwrap(), "x");
    assert_eq!(Type::parse("ii", "12").unwrap().get_string().unwrap(), "12");
    assert_eq!(Type::parse("I", "12").unwrap().get_string().unwrap(), "12");
}

#[test]
fn getters_give_nothing_for_another_payload() {
    let int = Type::Int(1);
    assert!(int.get_float().is_none());
    assert!(int.get_string().is_none());
    assert!(int.get_char().is_none());
    let text = Type::String("x".to_string());
    assert!(text.get_int().is_none());
    assert!(text.get_float().is_none());
    assert!(text.get_char().is_none());
    let c = Type::Char('x');
    assert!(c.get_int().is_none());
    assert!(c.get_string().is_none());
}

#[test]
fn every_name_gives_its_tag_and_back() {
    let names = [
        "tp", "cm", "s1", "s2", "NM", "MD", "AS", "SA", "ms", "nn", "ts", "cg", "cs", "dv", "de",
        "rl", "zd",
    ];
    for name in names {
        let tag = Tag::parse(name, Type::Int(3)).unwrap();
        assert_eq!(tag.to_string(), name);
        assert_eq!(tag.value().get_int(), Some(&3));
    }
    assert!(matches!(Tag::parse("NM", Type::Int(1)).unwrap(), Tag::NM(Type::Int(1))));
    assert!(matches!(Tag::parse("tp", Type::Char('P')).unwrap(), Tag::tp(Type::Char('P'))));
    assert_eq!(Tag::zd(Type::Char('x')).to_string(), "zd");
}

#[test]
fn unknown_name_gives_no_tag() {
    for name in ["", "t", "tpp", "TP", "nm", "xx", "zz", "s3", "t\u{e9}"] {
        match Tag::parse(name, Type::Int(1)) {
            Err(e) => match e.kind() {
                ErrorKind::ReadRecord(m) => assert_eq!(m, &format!("Invalid PAF tag: {}", name)),
                other => panic!("unexpected kind: {:?}", other),
            },
            Ok(tag) => panic!("unexpected tag: {:?}", tag),
        }
    }
}

#[test]
fn optional_fields_keep_one_tag_per_key() {
    let mut fields = OptionalFields::new();
    assert!(fields.is_empty());
    assert!(fields.get("NM").is_none());
    fields.insert("NM".to_string(), Tag::NM(Type::Int(1)));
    fields.insert("tp".to_string(), Tag::tp(Type::Char('P')));
    fields.insert("NM".to_string(), Tag::NM(Type::Int(2)));
    assert_eq!(fields.len(), 2);
    assert!(!fields.is_empty());
    assert!(fields.contains_key("NM"));
    assert!(!fields.contains_key("nm"));
    assert_eq!(fields.key_at(0), "NM");
    assert_eq!(fields.key_at(1), "tp");
    assert_eq!(fields.tag_at(0).value().get_int(), Some(&2));
    assert_eq!(fields.get("NM").unwrap().value().get_int(), Some(&2));
    assert_eq!(fields.get("tp").unwrap().value().get_char(), Some(&'P'));
}

#[test]
fn record_gives_back_what_it_was_made_of() {
    let mut fields = OptionalFields::new();
    fields.insert("dv".to_string(), Tag::dv(Type::Float("0.0123".to_string())));
    fields.insert("SA".to_string(), Tag::SA(Type::String("chr1,5,+".to_string())));
    fields.insert("ts".to_string(), Tag::ts(Type::Char('+')));
    let record = PafRecord::new(
        "q".to_owned(),
        1,
        2,
        3,
        'x',
        "t".to_owned(),
        4,
        5,
        6,
        7,
        8,
        9,
        fields,
    );
    assert_eq!(record.query_name(), "q");
    assert_eq!(record.query_len(), 1);
    assert_eq!(record.query_start(), 2);
    assert_eq!(record.query_end(), 3);
    assert_eq!(record.strand(), 'x');
    assert_eq!(record.target_name(), "t");
    assert_eq!(record.target_len(), 4);
    assert_eq!(record.target_start(), 5);
    assert_eq!(record.target_end(), 6);
    assert_eq!(record.residue_matches(), 7);
    assert_eq!(record.alignment_block_len(), 8);
    assert_eq!(record.mapping_quality(), 9);
    assert_eq!(record.dv().unwrap().parse::<f64>().unwrap(), 0.0123);
    assert_eq!(record.sa().unwrap(), "chr1,5,+");
    assert_eq!(record.ts(), Some(&'+'));
    assert_eq!(record.de(), None);
    assert_eq!(record.cg(), None);
    assert_eq!(record.tp(), None);
    assert_eq!(record.optional_fields().len(), 3);
}

#[test]
fn unsigned_numbers_are_read_as_std_reads_them() {
    let texts = [
        "0", "7", "007", "+7", "-7", "+", "-", "", "4294967295", "4294967296", "255", "256",
        "+255", "00000000000000000000000255", "99999999999999999999999999", "1 ", " 1", "1a",
        "a1", "1_0", "1.0", "0x1", "++1", "+-1", "٣", "18446744073709551616", "-0", "+0",
    ];
    for text in texts {
        let chars: Vec<char> = text.chars().collect();
        assert_eq!(paf::number::parse_u32(&chars), text.parse::<u32>().ok(), "text {:?}", text);
        assert_eq!(paf::number::parse_u8(&chars), text.parse::<u8>().ok(), "text {:?}", text);
    }
}

#[test]
fn signed_numbers_are_read_as_std_reads_them() {
    let texts = [
        "0", "-0", "+0", "7", "-7", "+7", "007", "-007", "+", "-", "", "--7", "+-7", "-+7",
        "9223372036854775807", "9223372036854775808", "-9223372036854775808",
        "-9223372036854775809", "18446744073709551615", "18446744073709551616",
        "-18446744073709551616", "000000000000000000009223372036854775807", "1 ", "1e3", "7-",
    ];
    for text in texts {
        let chars: Vec<char> = text.chars().collect();
        assert_eq!(paf::number::parse_i64(&chars), text.parse::<i64>().ok(), "text {:?}", text);
    }
}

#[test]
fn numbers_are_written_as_std_writes_them() {
    for n in [0u64, 1, 9, 10, 11, 99, 100, 255, 4294967295, 4294967296, u64::MAX] {
        let mut out = String::from("x");
        paf::number::push_decimal(&mut out, n);
        assert_eq!(out, format!("x{}", n));
    }
    for v in [0i64, 1, -1, 9, -9, 10, -10, 48730, -48730, i64::MAX, i64::MIN, i64::MIN + 1] {
        let mut out = String::new();
        paf::number::push_signed_decimal(&mut out, v);
        assert_eq!(out, format!("{}", v));
    }
}

#[test]
fn text_is_split_as_std_does_it() {
    let texts = [
        "", " ", "\t", "a", " a ", "\ta\tb\t", "a\t\tb", "\u{a0}a\u{3000}", "a b", "\t\t",
        " \ta", "a\t ",
    ];
    for text in texts {
        let chars: Vec<char> = text.chars().collect();
        let spans = paf::text::split_spans(&chars, 0, chars.len(), '\t');
        let pieces: Vec<String> =
            spans.iter().map(|s| chars[s.start..s.end].iter().collect()).collect();
        let expected: Vec<String> = text.split('\t').map(|s| s.to_string()).collect();
        assert_eq!(pieces, expected, "text {:?}", text);
    }
}

#[test]
fn terminator_is_a_line_feed_with_the_carriage_return_before_it() {
    let cases = [
        ("", ""),
        ("\n", ""),
        ("\r\n", ""),
        ("\r", "\r"),
        ("a", "a"),
        ("a\n", "a"),
        ("a\r\n", "a"),
        ("a\r", "a\r"),
        ("a\n\n", "a\n"),
        ("a\r\r\n", "a\r"),
        ("a\n\r", "a\n\r"),
        ("a \n", "a "),
        ("a\t\n", "a\t"),
        (" a\n", " a"),
    ];
    for (text, expected) in cases {
        let chars: Vec<char> = text.chars().collect();
        let end = paf::text::terminator_start(&chars);
        let kept: String = chars[..end].iter().collect();
        assert_eq!(kept, expected, "text {:?}", text);
    }
}

#[test]
fn four_digit_text_is_what_std_writes() {
    let values = [
        0.0, -0.0, 0.0003, -0.0003, 1.0, 123.45678, -98765.4321, 1e-5, 1e20, 0.99995,
        f64::MAX, f64::MIN, f64::MIN_POSITIVE, f64::INFINITY, f64::NEG_INFINITY, f64::NAN,
    ];
    for v in values {
        let text = format!("{:.4}", v);
        let chars: Vec<char> = text.chars().collect();
        assert!(paf::realnum::fixed_text(&chars), "text {:?}", text);
        assert!(Type::parse("f", &text).is_some(), "text {:?}", text);
    }
    for text in [
        "", "1", "1.", "1.000", "1.00000", ".0000", "-.0000", "+1.0000", "1e-5", "1.0000e1",
        "inf ", "Inf", "nan", "-NaN", "+inf", "1,0000", "1.00a0", "a.0000", "-", "infinity",
    ] {
        let chars: Vec<char> = text.chars().collect();
        assert!(!paf::realnum::fixed_text(&chars), "text {:?}", text);
    }
}

#[test]
fn accessors_may_be_called_on_a_well_typed_record() {
    let good = paf::parse_record("q\t1\t2\t3\t+\tt\t4\t5\t6\t7\t8\t9\tNM:i:1\tzd:Z:x", 1).unwrap();
    assert!(good.is_well_typed());
    assert_eq!(good.nm(), Some(&1));
    let bad = paf::parse_record("q\t1\t2\t3\t+\tt\t4\t5\t6\t7\t8\t9\tNM:Z:one", 1).unwrap();
    assert!(!bad.is_well_typed());
    let mut fields = OptionalFields::new();
    fields.insert("NM".to_string(), Tag::cm(Type::Int(1)));
    let mixed = PafRecord::new(
        "q".to_owned(), 1, 2, 3, '+', "t".to_owned(), 4, 5, 6, 7, 8, 9, fields,
    );
    assert!(!mixed.is_well_typed());
}

#[test]
fn type_codes() {
    assert_eq!(Type::Int(1).code(), 'i');
    assert_eq!(Type::Float("1.5".to_string()).code(), 'f');
    assert_eq!(Type::String("x".to_string()).code(), 'Z');
    assert_eq!(Type::Char('x').code(), 'A');
}
