use paf::{format_record, parse_record, OptionalFields, PafRecord, Reader, Tag, Type, Writer};

#[test]
fn test_write_record_mandatory_fields() {
    let buffer = Vec::new();
    let mut writer = Writer::new(buffer);

    let record = PafRecord::new(
        "query1".to_owned(),
        1000,
        100,
        500,
        '+',
        "target1".to_owned(),
        1500,
        200,
        600,
        300,
        400,
        60,
        OptionalFields::new(),
    );

    writer.write_record(&record).unwrap();
    let output = String::from_utf8(writer.into_inner()).unwrap();

    assert_eq!(
        output,
        "query1\t1000\t100\t500\t+\ttarget1\t1500\t200\t600\t300\t400\t60\n"
    );
}

#[test]
fn test_write_record_with_optional_fields() {
    let buffer = Vec::new();
    let mut writer = Writer::new(buffer);

    let mut optional_fields = OptionalFields::new();

    optional_fields.insert("tp".to_string(), Tag::tp(Type::Char('P')));
    optional_fields.insert("cm".to_string(), Tag::cm(Type::Int(42)));
    optional_fields.insert("s1".to_string(), Tag::s1(Type::Int(99)));

    let record = PafRecord::new(
        "query2".to_owned(),
        2000,
        150,
        900,
        '-',
        "target2".to_owned(),
        2500,
        300,
        1000,
        400,
        800,
        70,
        optional_fields,
    );

    writer.write_record(&record).unwrap();
    let output = String::from_utf8(writer.into_inner()).unwrap();

    assert!(
        output.contains("query2\t2000\t150\t900\t-\ttarget2\t2500\t300\t1000\t400\t800\t70")
    );
    assert!(output.contains("\ttp:A:P"));
    assert!(output.contains("\tcm:i:42"));
    assert!(output.contains("\ts1:i:99"));
}

#[test]
fn optional_fields_are_written_in_their_order() {
    let mut fields = OptionalFields::new();
    fields.insert("tp".to_string(), Tag::tp(Type::Char('P')));
    fields.insert("NM".to_string(), Tag::NM(Type::Int(-7)));
    fields.insert("de".to_string(), Tag::de(Type::Float("0.0003".to_string())));
    fields.insert("cg".to_string(), Tag::cg(Type::String("10M:2D".to_string())));
    fields.insert("NM".to_string(), Tag::NM(Type::Int(i64::MIN)));
    let record = PafRecord::new(
        "q".to_owned(),
        0,
        4294967295,
        10,
        '-',
        "t".to_owned(),
        1,
        2,
        3,
        4,
        5,
        255,
        fields,
    );
    assert_eq!(
        format_record(&record),
        "q\t0\t4294967295\t10\t-\tt\t1\t2\t3\t4\t5\t255\ttp:A:P\tNM:i:-9223372036854775808\tde:f:0.0003\tcg:Z:10M:2D\n"
    );
}

#[test]
fn writer_appends_line_after_line() {
    let mut writer = Writer::new(b"# header\n".to_vec());
    let first = parse_record("a\t1\t2\t3\t+\tb\t4\t5\t6\t7\t8\t9", 1).unwrap();
    let second = parse_record("c\t1\t2\t3\t-\td\t4\t5\t6\t7\t8\t9\ttp:A:S", 2).unwrap();
    writer.write_record(&first).unwrap();
    assert_eq!(
        writer.get_ref().as_slice(),
        b"# header\na\t1\t2\t3\t+\tb\t4\t5\t6\t7\t8\t9\n"
    );
    writer.write_record(&second).unwrap();
    assert_eq!(
        String::from_utf8(writer.into_inner()).unwrap(),
        "# header\na\t1\t2\t3\t+\tb\t4\t5\t6\t7\t8\t9\nc\t1\t2\t3\t-\td\t4\t5\t6\t7\t8\t9\ttp:A:S\n"
    );
}

#[test]
fn text_beyond_ascii_is_written_as_utf8() {
    let mut fields = OptionalFields::new();
    fields.insert("ts".to_string(), Tag::ts(Type::Char('\u{3b2}')));
    let record = PafRecord::new(
        "qu\u{e9}ry".to_owned(),
        1,
        2,
        3,
        '+',
        "t".to_owned(),
        4,
        5,
        6,
        7,
        8,
        9,
        fields,
    );
    let mut writer = Writer::new(Vec::new());
    writer.write_record(&record).unwrap();
    assert_eq!(
        writer.into_inner(),
        "qu\u{e9}ry\t1\t2\t3\t+\tt\t4\t5\t6\t7\t8\t9\tts:A:\u{3b2}\n".as_bytes()
    );
}

#[test]
fn canonical_line_is_written_as_it_was_read() {
    let line = "query1\t1000\t100\t500\t+\ttarget1\t1500\t200\t600\t300\t400\t60\tNM:i:48730\tde:f:0.0003\ttp:A:P\tcg:Z:770M1D945M\tAS:i:-5\n";
    let mut reader = Reader::from_reader(line.as_bytes());
    let record = reader.read_record().unwrap().unwrap();
    assert_eq!(format_record(&record), line);
}

#[test]
fn mandatory_prefix_survives_reading_and_writing() {
    let line = "q\t7\t0\t4294967295\t-\tt\t10\t20\t30\t40\t50\t0\tNM:i:+08\tNM:i:9";
    let record = parse_record(line, 1).unwrap();
    let written = format_record(&record);
    assert!(written.starts_with("q\t7\t0\t4294967295\t-\tt\t10\t20\t30\t40\t50\t0"));
    assert_eq!(
        written,
        "q\t7\t0\t4294967295\t-\tt\t10\t20\t30\t40\t50\t0\tNM:i:9\n"
    );
}

#[test]
fn field_is_written_under_the_name_of_its_tag() {
    let mut m = OptionalFields::new();
    m.insert("xx".to_string(), Tag::tp(Type::Char('P')));
    let record = PafRecord::new(
        "q".to_owned(),
        9,
        1,
        5,
        '+',
        "t".to_owned(),
        8,
        2,
        6,
        3,
        4,
        60,
        m,
    );
    let mut writer = Writer::new(Vec::new());
    writer.write_record(&record).unwrap();
    assert_eq!(
        String::from_utf8(writer.into_inner()).unwrap(),
        "q\t9\t1\t5\t+\tt\t8\t2\t6\t3\t4\t60\ttp:A:P\n"
    );
}

#[test]
fn bytes_read_are_the_bytes_written() {
    let source = "qu\u{e9}ry 1\t1000\t100\t500\t-\t target\t1500\t200\t600\t300\t400\t0\tNM:i:-48730\tde:f:0.0003\ttp:A:P\tcg:Z:770M 1D\n";
    let mut reader = Reader::from_reader(source.as_bytes());
    let record = reader.read_record().unwrap().unwrap();
    let mut writer = Writer::new(Vec::new());
    writer.write_record(&record).unwrap();
    assert_eq!(writer.into_inner(), source.as_bytes());
}

#[test]
fn record_tells_whether_its_reals_have_four_digits() {
    let fixed = parse_record("q\t1\t2\t3\t+\tt\t4\t5\t6\t7\t8\t9\tde:f:0.0003\tdv:f:-12.3400\tNM:i:1", 1)
        .unwrap();
    assert!(fixed.has_fixed_reals());
    assert!(format_record(&fixed).contains("\tde:f:0.0003\tdv:f:-12.3400\t"));
    let other = parse_record("q\t1\t2\t3\t+\tt\t4\t5\t6\t7\t8\t9\tde:f:0.0003\tdv:f:1e-5", 1)
        .unwrap();
    assert!(!other.has_fixed_reals());
    assert!(format_record(&other).ends_with("\tdv:f:1e-5\n"));
    let none = parse_record("q\t1\t2\t3\t+\tt\t4\t5\t6\t7\t8\t9", 1).unwrap();
    assert!(none.has_fixed_reals());
}
