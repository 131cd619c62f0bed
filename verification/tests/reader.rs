use paf::{ErrorKind, PafRecord, Reader};

const PAF_RECORD_1: &[u8] = b"NC_041798.1	41841605	28850796	29394458	+	SUPER_10	44636193	31974877	32470190	495111	515145	60	NM:i:48730	ms:i:488389	AS:i:439775	nn:i:28696	tp:A:P	cm:i:46495	s1:i:466570	s2:i:10896	de:f:0.0003	zd:i:3	rl:i:3568165	cg:Z:770M1D945M1D389M1I9141M1I356M1D196M1I30268M2D789M3I992M2D1819M1D7M1D7M1I10M6D2922M1D17899M2D1010M4D12324M1I1376M1D5549M6D1839M1I2206M1D770M1D2287M1D16103M1D3238M1D2014M1D140M5I14M1D8496M2I2151M1I335M1D14424M1D1093M1I567M1D1835M2D1995M1D5257M1D639M1I699M1I133M1I52M1I99M2I26M1I195M1I1543M1I240M1I176M1I412M2D159M1I261M1D1158M1I933M2D12836M1D993M1D12263M2D4975M2I16452M3I396M1I3924M2D929M3I3015M1D225M1D4225M1D717M2D752M1D2051M1D5110M1D15073M1D1053M2D4369M1D619M3I13564M2I4386M1D1431M2D617M1I612M2I3445M2I252M1D220M1D237M1I903M1I145M1I53M1I197M1I1280M1D4201M1D1736M1D1289M1I3344M2D5456M1D488M1I1655M2D1830M1D796M1I19341M2D1165M1D1926M1D6041M1D2170M1D3917M1D926M1D759M1D400M2I8802M1I836M1I381M48451I166M1I4896M2D1522M49D2729M1D947M2D927M6D911M2D800M2D3040M1D13213M1D8999M3D847M1D220M1I673M1D165M1I901M1I2887M1I105M2I597M1I1201M1I53M2I494M1I23M1D99M1I146M1D29906M1D5661M1I27598M1D520M1I166M2D11600M1D388M1D844M1D4583M1D8390M1D5789M2D3773M1D4494M1D448M1D846M3D531M";

#[test]
fn test_read_record() {
    let mut parser = Reader::from_reader(&PAF_RECORD_1[..]);
    let record = parser.read_record().unwrap().unwrap();

    assert_eq!(record.query_name(), "NC_041798.1");
    assert_eq!(record.query_len(), 41841605);
    assert_eq!(record.query_start(), 28850796);
    assert_eq!(record.query_end(), 29394458);
    assert_eq!(record.strand(), '+');
    assert_eq!(record.target_name(), "SUPER_10");
    assert_eq!(record.target_len(), 44636193);
    assert_eq!(record.target_start(), 31974877);
    assert_eq!(record.target_end(), 32470190);
    assert_eq!(record.residue_matches(), 495111);
    assert_eq!(record.alignment_block_len(), 515145);
    assert_eq!(record.mapping_quality(), 60);

    let nm = record.nm().unwrap();
    assert_eq!(nm, &48730);
}

#[test]
fn read_record_optional_fields_by_type() {
    let mut parser = Reader::from_reader(&PAF_RECORD_1[..]);
    let record = parser.read_record().unwrap().unwrap();

    assert_eq!(record.nm(), Some(&48730));
    assert_eq!(record.ms(), Some(&488389));
    assert_eq!(record.as_(), Some(&439775));
    assert_eq!(record.nn(), Some(&28696));
    assert_eq!(record.tp(), Some(&'P'));
    assert_eq!(record.cm(), Some(&46495));
    assert_eq!(record.s1(), Some(&466570));
    assert_eq!(record.s2(), Some(&10896));
    assert_eq!(record.rl(), Some(&3568165));
    let de = record.de().unwrap();
    assert_eq!(de.as_str(), "0.0003");
    assert_eq!(de.parse::<f64>().unwrap(), 0.0003);
    let cg = record.cg().unwrap();
    assert!(cg.starts_with("770M1D945M1D389M1I9141M"));
    assert!(cg.ends_with("448M1D846M3D531M"));
    let line = std::str::from_utf8(PAF_RECORD_1).unwrap();
    assert_eq!(cg.as_str(), line.rsplit("cg:Z:").next().unwrap());
    assert_eq!(record.dv(), None);
    assert_eq!(record.md(), None);
    assert_eq!(record.optional_fields().len(), 12);
    assert!(record.optional_fields().contains_key("zd"));
    assert_eq!(parser.line(), 1);
    assert!(parser.read_record().unwrap().is_none());
    assert_eq!(parser.line(), 1);
}

fn good_line(name: &str) -> String {
    format!("{}\t1000\t100\t500\t+\ttarget1\t1500\t200\t600\t300\t400\t60\n", name)
}

fn message(r: Result<Option<PafRecord>, paf::Error>) -> String {
    match r {
        Err(e) => match e.into_kind() {
            ErrorKind::ReadRecord(m) => m,
            other => panic!("not a record failure: {:?}", other),
        },
        Ok(_) => panic!("no failure"),
    }
}

#[test]
fn empty_source_has_no_record() {
    let mut reader = Reader::from_reader(b"");
    assert!(reader.read_record().unwrap().is_none());
    assert!(reader.read_record().unwrap().is_none());
    assert_eq!(reader.line(), 0);
}

#[test]
fn fewer_than_twelve_columns_is_rejected() {
    let mut reader = Reader::from_reader(b"q\t1\t2\t3\t+\tt\t4\t5\t6\t7\t8\n");
    assert_eq!(
        message(reader.read_record()),
        "Invalid PAF at line 1: less than 12 mandatory fields"
    );
    assert!(reader.read_record().unwrap().is_none());
}

#[test]
fn blank_line_is_rejected() {
    let mut reader = Reader::from_reader(b"\n");
    assert_eq!(
        message(reader.read_record()),
        "Invalid PAF at line 1: less than 12 mandatory fields"
    );
}

#[test]
fn invalid_strand_is_named() {
    let mut reader =
        Reader::from_reader(b"q\t1\t2\t3\t*\tt\t4\t5\t6\t7\t8\t9\n");
    assert_eq!(
        message(reader.read_record()),
        "Invalid strand field at line 1: *"
    );
}

#[test]
fn empty_strand_is_rejected() {
    let mut reader = Reader::from_reader(b"q\t1\t2\t3\t\tt\t4\t5\t6\t7\t8\t9\n");
    assert_eq!(message(reader.read_record()), "Empty strand field");
}

#[test]
fn strand_is_the_first_character_of_its_column() {
    let mut reader =
        Reader::from_reader(b"q\t1\t2\t3\t-+\tt\t4\t5\t6\t7\t8\t9\n");
    let record = reader.read_record().unwrap().unwrap();
    assert_eq!(record.strand(), '-');
}

#[test]
fn malformed_number_is_a_numeric_failure() {
    let mut reader =
        Reader::from_reader(b"q\t1\t2x\t3\t+\tt\t4\t5\t6\t7\t8\t9\n");
    match reader.read_record() {
        Err(e) => match e.kind() {
            ErrorKind::ParseInt(text) => assert_eq!(text, "2x"),
            other => panic!("unexpected kind: {:?}", other),
        },
        Ok(_) => panic!("no failure"),
    }
}

#[test]
fn number_out_of_range_is_a_numeric_failure() {
    let mut reader =
        Reader::from_reader(b"q\t4294967296\t2\t3\t+\tt\t4\t5\t6\t7\t8\t9\n");
    assert!(matches!(
        reader.read_record().unwrap_err().kind(),
        ErrorKind::ParseInt(_)
    ));
    let mut reader =
        Reader::from_reader(b"q\t4294967295\t2\t3\t+\tt\t4\t5\t6\t7\t8\t256\n");
    match reader.read_record().unwrap_err().kind() {
        ErrorKind::ParseInt(text) => assert_eq!(text, "256"),
        other => panic!("unexpected kind: {:?}", other),
    }
    let mut reader =
        Reader::from_reader(b"q\t4294967295\t+2\t003\t+\tt\t4\t5\t6\t7\t8\t255\n");
    let record = reader.read_record().unwrap().unwrap();
    assert_eq!(record.query_len(), 4294967295);
    assert_eq!(record.query_start(), 2);
    assert_eq!(record.query_end(), 3);
    assert_eq!(record.mapping_quality(), 255);
}

#[test]
fn numeric_failure_comes_before_strand_failure() {
    let mut reader =
        Reader::from_reader(b"q\tx\t2\t3\t*\tt\t4\t5\t6\t7\t8\t9\n");
    assert!(matches!(
        reader.read_record().unwrap_err().kind(),
        ErrorKind::ParseInt(_)
    ));
}

#[test]
fn optional_field_with_too_few_parts_is_rejected() {
    let mut reader =
        Reader::from_reader(b"q\t1\t2\t3\t+\tt\t4\t5\t6\t7\t8\t9\tNM:i\n");
    assert_eq!(
        message(reader.read_record()),
        "Invalid PAF line: invalid optional field - too few parts"
    );
}

#[test]
fn optional_field_with_bad_payload_is_rejected() {
    let mut reader =
        Reader::from_reader(b"q\t1\t2\t3\t+\tt\t4\t5\t6\t7\t8\t9\tNM:i:4x\n");
    assert_eq!(
        message(reader.read_record()),
        "Invalid PAF line: invalid optional field type: i"
    );
    let mut reader =
        Reader::from_reader(b"q\t1\t2\t3\t+\tt\t4\t5\t6\t7\t8\t9\tde:f:1.2.3\n");
    assert_eq!(
        message(reader.read_record()),
        "Invalid PAF line: invalid optional field type: f"
    );
    let mut reader =
        Reader::from_reader(b"q\t1\t2\t3\t+\tt\t4\t5\t6\t7\t8\t9\ttp:A:\tNM:i:1\n");
    assert_eq!(
        message(reader.read_record()),
        "Invalid PAF line: invalid optional field type: A"
    );
}

#[test]
fn unknown_tag_is_named_and_does_not_end_the_iteration() {
    let mut text = String::from("q\t1\t2\t3\t+\tt\t4\t5\t6\t7\t8\t9\txx:i:1\n");
    text.push_str(&good_line("query1"));
    let reader = Reader::from_reader(text.as_bytes());
    let mut records = reader.into_records();
    match records.next() {
        Some(Err(e)) => match e.kind() {
            ErrorKind::ReadRecord(m) => assert_eq!(m, "Invalid PAF tag: xx"),
            other => panic!("unexpected kind: {:?}", other),
        },
        _ => panic!("no failure"),
    }
    let second = records.next().unwrap().unwrap();
    assert_eq!(second.query_name(), "query1");
    assert!(records.next().is_none());
    assert_eq!(records.into_reader().line(), 2);
}

#[test]
fn value_may_hold_colons() {
    let mut reader = Reader::from_reader(
        b"q\t1\t2\t3\t+\tt\t4\t5\t6\t7\t8\t9\tcs:Z::6-ata:10+gtc:4*at:3\n",
    );
    let record = reader.read_record().unwrap().unwrap();
    assert_eq!(record.cs().unwrap(), ":6-ata:10+gtc:4*at:3");
}

#[test]
fn unknown_type_code_is_taken_as_text() {
    let mut reader =
        Reader::from_reader(b"q\t1\t2\t3\t+\tt\t4\t5\t6\t7\t8\t9\tMD:B:c,1,2\n");
    let record = reader.read_record().unwrap().unwrap();
    assert_eq!(record.md().unwrap(), "c,1,2");
}

#[test]
fn later_field_of_one_name_wins() {
    let mut reader = Reader::from_reader(
        b"q\t1\t2\t3\t+\tt\t4\t5\t6\t7\t8\t9\tNM:i:1\tcm:i:7\tNM:i:2\n",
    );
    let record = reader.read_record().unwrap().unwrap();
    assert_eq!(record.nm(), Some(&2));
    assert_eq!(record.cm(), Some(&7));
    assert_eq!(record.optional_fields().len(), 2);
    assert_eq!(record.optional_fields().key_at(0), "NM");
    assert_eq!(record.optional_fields().key_at(1), "cm");
}

#[test]
fn only_the_terminator_is_taken_off() {
    let mut reader =
        Reader::from_reader(b"  q \t1\t2\t3\t+\tt\t4\t5\t6\t7\t8\t9\r\n");
    let record = reader.read_record().unwrap().unwrap();
    assert_eq!(record.query_name(), "  q ");
    assert_eq!(record.mapping_quality(), 9);
    let mut reader =
        Reader::from_reader(b"q\t1\t2\t3\t+\tt\t4\t5\t6\t7\t8\t9 \n");
    match reader.read_record().unwrap_err().kind() {
        ErrorKind::ParseInt(text) => assert_eq!(text, "9 "),
        other => panic!("unexpected kind: {:?}", other),
    }
    let mut reader =
        Reader::from_reader(b"q\t1\t2\t3\t+\tt\t4\t5\t6\t7\t8\t9\r\r\n");
    match reader.read_record().unwrap_err().kind() {
        ErrorKind::ParseInt(text) => assert_eq!(text, "9\r"),
        other => panic!("unexpected kind: {:?}", other),
    }
    let mut reader =
        Reader::from_reader(b"q\t1\t2\t3\t+\tt\t4\t5\t6\t7\t8\t9\tcg:Z:5M \n");
    let record = reader.read_record().unwrap().unwrap();
    assert_eq!(record.cg().unwrap(), "5M ");
}

#[test]
fn trailing_tab_is_an_empty_optional_column() {
    let mut rdr = Reader::from_reader(&b"q\t9\t1\t5\t+\tt\t8\t2\t6\t3\t4\t60\t\n"[..]);
    assert_eq!(
        message(rdr.read_record()),
        "Invalid PAF line: invalid optional field - too few parts"
    );
}

#[test]
fn empty_columns_count_as_columns() {
    let mut rdr = Reader::from_reader(&b"q\t1\t1\t1\t*\t\t\t\t\t\t\t\n"[..]);
    assert_eq!(message(rdr.read_record()), "Invalid strand field at line 1: *");
    let mut rdr = Reader::from_reader(&b"\t1\t1\t1\t-\t\t1\t1\t1\t1\t1\t1\n"[..]);
    let record = rdr.read_record().unwrap().unwrap();
    assert_eq!(record.query_name(), "");
    assert_eq!(record.target_name(), "");
    assert_eq!(record.strand(), '-');
}

#[test]
fn last_line_needs_no_terminator() {
    let mut text = good_line("first");
    text.push_str(good_line("second").trim_end());
    let mut reader = Reader::from_reader(text.as_bytes());
    assert_eq!(reader.read_record().unwrap().unwrap().query_name(), "first");
    assert_eq!(reader.read_record().unwrap().unwrap().query_name(), "second");
    assert!(reader.read_record().unwrap().is_none());
    assert_eq!(reader.line(), 2);
}

#[test]
fn bytes_that_are_no_text_are_a_source_failure() {
    let mut bytes: Vec<u8> = vec![b'q', 0xff, b'\t', b'1', b'\n'];
    bytes.extend_from_slice(good_line("after").as_bytes());
    let mut reader = Reader::new(bytes);
    match reader.read_record() {
        Err(e) => match e.kind() {
            ErrorKind::Io(m) => assert_eq!(m, "stream did not contain valid UTF-8"),
            other => panic!("unexpected kind: {:?}", other),
        },
        Ok(_) => panic!("no failure"),
    }
    assert_eq!(reader.read_record().unwrap().unwrap().query_name(), "after");
}

#[test]
fn text_beyond_ascii_is_read() {
    let line = "qu\u{e9}ry\t1\t2\t3\t+\tt\u{3b1}\t4\t5\t6\t7\t8\t9\ttp:A:\u{3b2}\n";
    let mut reader = Reader::from_reader(line.as_bytes());
    let record = reader.read_record().unwrap().unwrap();
    assert_eq!(record.query_name(), "qu\u{e9}ry");
    assert_eq!(record.target_name(), "t\u{3b1}");
    assert_eq!(record.tp(), Some(&'\u{3b2}'));
}

#[test]
fn iteration_goes_on_after_a_malformed_line() {
    let mut text = good_line("query1");
    text.push_str("q\t1\t2\t3\t+\tt\t4\t5\t6\t7\t8\n");
    text.push_str(&good_line("query3"));
    let mut reader = Reader::from_reader(text.as_bytes());
    {
        let mut records = reader.records();
        let first = records.next().unwrap().unwrap();
        assert_eq!(first.query_name(), "query1");
        assert_eq!(records.reader().line(), 1);
        match records.next() {
            Some(Err(e)) => match e.kind() {
                ErrorKind::ReadRecord(m) => {
                    assert_eq!(m, "Invalid PAF at line 2: less than 12 mandatory fields")
                }
                other => panic!("unexpected kind: {:?}", other),
            },
            _ => panic!("no failure"),
        }
        let third = records.next().unwrap().unwrap();
        assert_eq!(third.query_name(), "query3");
        assert!(records.next().is_none());
        assert!(records.next().is_none());
    }
    assert_eq!(reader.line(), 3);
    assert!(reader.read_record().unwrap().is_none());
}

#[test]
fn owned_iteration_yields_three_items() {
    let mut text = good_line("query1");
    text.push_str("q\t1\t2\t3\t+\tt\t4\t5\t6\t7\t8\n");
    text.push_str(&good_line("query3"));
    let mut records = Reader::from_reader(text.as_bytes()).into_records();
    let mut seen: Vec<bool> = Vec::new();
    while let Some(item) = records.next() {
        seen.push(item.is_ok());
    }
    assert_eq!(seen, vec![true, false, true]);
    assert_eq!(records.reader().line(), 3);
    let extra = good_line("more");
    *records.reader_mut() = Reader::from_reader(extra.as_bytes());
    assert_eq!(records.next().unwrap().unwrap().query_name(), "more");
    let reader = records.into_reader();
    assert_eq!(reader.line(), 1);
}

#[test]
fn borrowed_iterator_hands_out_its_reader() {
    let text = good_line("query1");
    let mut reader = Reader::from_reader(text.as_bytes());
    let mut records = reader.records();
    assert_eq!(records.reader_mut().line(), 0);
    let record = records.reader_mut().read_record().unwrap().unwrap();
    assert_eq!(record.query_name(), "query1");
    assert!(records.next().is_none());
}

#[test]
fn reading_to_the_end_gives_an_item_for_each_line() {
    let mut text = good_line("query1");
    text.push_str("q\t1\t2\t3\t+\tt\t4\t5\t6\t7\t8\n");
    text.push_str(&good_line("query3"));
    let mut reader = Reader::from_reader(text.as_bytes());
    let items = reader.read_all();
    assert_eq!(items.len(), 3);
    assert_eq!(items[0].as_ref().unwrap().query_name(), "query1");
    match items[1].as_ref().unwrap_err().kind() {
        ErrorKind::ReadRecord(m) => {
            assert_eq!(m, "Invalid PAF at line 2: less than 12 mandatory fields")
        }
        other => panic!("unexpected kind: {:?}", other),
    }
    assert_eq!(items[2].as_ref().unwrap().query_name(), "query3");
    assert_eq!(reader.line(), 3);
    assert!(reader.read_all().is_empty());
    assert!(Reader::from_reader(b"").read_all().is_empty());
}
