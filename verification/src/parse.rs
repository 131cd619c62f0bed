//! From one line of text to a record.

use vstd::prelude::*;
use vstd::string::StringExecFns;
use crate::error::{Error, ErrorKind, Failure};
use crate::number::{as_u32, as_u8, decimal, parse_u32, parse_u8, push_decimal};
use crate::record::{distinct_keys, lemma_put_distinct, put, OptionalFields, PafRecord, RecordView};
use crate::text::{
    chars_of,
    find,
    find_in,
    pieces_of,
    split,
    split_spans,
    text_of,
    strip_terminator,
    terminator_start,
    push_chars,
    Span,
};
use crate::value::{
    is_tag_name,
    lemma_name_identifies_tag,
    parse_value,
    unknown_tag,
    Tag,
    TagView,
    Type,
};

verus! {

/// The failure for a line of fewer than twelve columns.
pub open spec fn too_few_columns(line: u64) -> Failure {
    Failure::ReadRecord(
        "Invalid PAF at line "@ + decimal(line as nat) + ": less than 12 mandatory fields"@,
    )
}

/// The failure for a strand column without a character.
pub open spec fn empty_strand() -> Failure {
    Failure::ReadRecord("Empty strand field"@)
}

/// The failure for a strand that is neither `+` nor `-`.
pub open spec fn invalid_strand(line: u64, strand: char) -> Failure {
    Failure::ReadRecord(
        "Invalid strand field at line "@ + decimal(line as nat) + ": "@ + seq![strand],
    )
}

/// The failure for an optional field without two colons.
pub open spec fn too_few_parts() -> Failure {
    Failure::ReadRecord("Invalid PAF line: invalid optional field - too few parts"@)
}

/// The failure for a payload that its type code does not accept.
pub open spec fn invalid_type(code: Seq<char>) -> Failure {
    Failure::ReadRecord("Invalid PAF line: invalid optional field type: "@ + code)
}

/// The name of an optional column: what stands before its first colon.
pub open spec fn field_name(col: Seq<char>) -> Seq<char> {
    col.take(find(col, ':'))
}

/// The type code of an optional column: what stands between its first two
/// colons.
pub open spec fn field_code(col: Seq<char>) -> Seq<char> {
    let rest = col.skip(find(col, ':') + 1);
    rest.take(find(rest, ':'))
}

/// The raw payload of an optional column: what stands after its second colon.
pub open spec fn field_raw(col: Seq<char>) -> Seq<char> {
    let rest = col.skip(find(col, ':') + 1);
    rest.skip(find(rest, ':') + 1)
}

/// The column holds two colons at least.
pub open spec fn has_three_parts(col: Seq<char>) -> bool {
    let i = find(col, ':');
    let rest = col.skip(i + 1);
    i < col.len() && find(rest, ':') < rest.len()
}

/// The tag that an optional column stands for. The column is a name, a type
/// code and a raw text, parted by its first two colons; the raw text may
/// hold further colons.
pub open spec fn parse_field(col: Seq<char>) -> Result<TagView, Failure> {
    if !has_three_parts(col) {
        Err(too_few_parts())
    } else {
        match parse_value(field_code(col), field_raw(col)) {
            None => Err(invalid_type(field_code(col))),
            Some(value) => if is_tag_name(field_name(col)) {
                Ok(TagView { name: field_name(col), value })
            } else {
                Err(unknown_tag(field_name(col)))
            },
        }
    }
}

/// The optional fields that the columns stand for, each under the name of
/// its tag; of two columns of one name the later one counts. The first
/// column that is no field decides the failure.
pub open spec fn parse_fields(cols: Seq<Seq<char>>) -> Result<Seq<(Seq<char>, TagView)>, Failure>
    decreases cols.len(),
{
    if cols.len() == 0 {
        Ok(Seq::empty())
    } else {
        match parse_fields(cols.drop_last()) {
            Err(f) => Err(f),
            Ok(es) => match parse_field(cols.last()) {
                Err(f) => Err(f),
                Ok(t) => Ok(put(es, t.name, t)),
            },
        }
    }
}

/// The record that the columns of line number `line` stand for. The columns
/// are read in order, and the first one that cannot be read decides the
/// failure.
pub open spec fn parse_columns(cols: Seq<Seq<char>>, line: u64) -> Result<RecordView, Failure> {
    if cols.len() < 12 {
        Err(too_few_columns(line))
    } else if as_u32(cols[1]) is None {
        Err(Failure::ParseInt(cols[1]))
    } else if as_u32(cols[2]) is None {
        Err(Failure::ParseInt(cols[2]))
    } else if as_u32(cols[3]) is None {
        Err(Failure::ParseInt(cols[3]))
    } else if cols[4].len() == 0 {
        Err(empty_strand())
    } else if cols[4][0] != '+' && cols[4][0] != '-' {
        Err(invalid_strand(line, cols[4][0]))
    } else if as_u32(cols[6]) is None {
        Err(Failure::ParseInt(cols[6]))
    } else if as_u32(cols[7]) is None {
        Err(Failure::ParseInt(cols[7]))
    } else if as_u32(cols[8]) is None {
        Err(Failure::ParseInt(cols[8]))
    } else if as_u32(cols[9]) is None {
        Err(Failure::ParseInt(cols[9]))
    } else if as_u32(cols[10]) is None {
        Err(Failure::ParseInt(cols[10]))
    } else if as_u8(cols[11]) is None {
        Err(Failure::ParseInt(cols[11]))
    } else {
        match parse_fields(cols.skip(12)) {
            Err(f) => Err(f),
            Ok(optional) => Ok(
                RecordView {
                    query_name: cols[0],
                    query_len: as_u32(cols[1])->Some_0,
                    query_start: as_u32(cols[2])->Some_0,
                    query_end: as_u32(cols[3])->Some_0,
                    strand: cols[4][0],
                    target_name: cols[5],
                    target_len: as_u32(cols[6])->Some_0,
                    target_start: as_u32(cols[7])->Some_0,
                    target_end: as_u32(cols[8])->Some_0,
                    residue_matches: as_u32(cols[9])->Some_0,
                    alignment_block_len: as_u32(cols[10])->Some_0,
                    mapping_quality: as_u8(cols[11])->Some_0,
                    optional,
                },
            ),
        }
    }
}

/// The record that a line of text stands for, where `line` is the number
/// that failures name. The line terminator at the end of the text does not
/// count; every other character does, whitespace too. What is left is parted
/// into columns at each tab.
pub open spec fn parse_line(text: Seq<char>, line: u64) -> Result<RecordView, Failure> {
    parse_columns(split(strip_terminator(text), '\t'), line)
}

/// A result as plain values.
pub open spec fn outcome(r: Result<PafRecord, Error>) -> Result<RecordView, Failure> {
    match r {
        Ok(record) => Ok(record@),
        Err(e) => Err(e@),
    }
}

/// The fields that columns stand for have distinct keys.
pub proof fn lemma_fields_distinct(cols: Seq<Seq<char>>)
    ensures
        parse_fields(cols) matches Ok(es) ==> distinct_keys(es),
    decreases cols.len(),
{
    if cols.len() > 0 {
        lemma_fields_distinct(cols.drop_last());
        if let Ok(es) = parse_fields(cols.drop_last()) {
            if let Ok(t) = parse_field(cols.last()) {
                lemma_put_distinct(es, t.name, t);
            }
        }
    }
}

/// Where the first `k` columns already fail, all the columns fail in the
/// same way.
pub proof fn lemma_fields_fail_early(cols: Seq<Seq<char>>, k: int)
    requires
        0 <= k <= cols.len(),
        parse_fields(cols.take(k)) is Err,
    ensures
        parse_fields(cols) == parse_fields(cols.take(k)),
    decreases cols.len() - k,
{
    if k == cols.len() {
        assert(cols.take(k) =~= cols);
    } else {
        assert(cols.drop_last().take(k) =~= cols.take(k));
        lemma_fields_fail_early(cols.drop_last(), k);
    }
}

/// The column of `chars` under `span` as an unsigned number of 32 bits.
fn column_u32(chars: &[char], span: Span) -> (r: Result<u32, Error>)
    requires
        span.within(chars@.len()),
    ensures
        match r {
            Ok(v) => as_u32(span.of(chars@)) == Some(v),
            Err(e) => as_u32(span.of(chars@)) is None && e@ == Failure::ParseInt(span.of(chars@)),
        },
{
    match parse_u32(&chars[span.start..span.end]) {
        Some(v) => Ok(v),
        None => Err(Error::new(ErrorKind::ParseInt(text_of(chars, span.start, span.end)))),
    }
}

/// The column of `chars` under `span` as an unsigned number of 8 bits.
fn column_u8(chars: &[char], span: Span) -> (r: Result<u8, Error>)
    requires
        span.within(chars@.len()),
    ensures
        match r {
            Ok(v) => as_u8(span.of(chars@)) == Some(v),
            Err(e) => as_u8(span.of(chars@)) is None && e@ == Failure::ParseInt(span.of(chars@)),
        },
{
    match parse_u8(&chars[span.start..span.end]) {
        Some(v) => Ok(v),
        None => Err(Error::new(ErrorKind::ParseInt(text_of(chars, span.start, span.end)))),
    }
}

/// The tag that the column of `chars` under `span` stands for.
pub fn parse_optional_field(chars: &[char], span: Span) -> (r: Result<Tag, Error>)
    requires
        span.within(chars@.len()),
    ensures
        match r {
            Ok(t) => parse_field(span.of(chars@)) == Ok::<TagView, Failure>(t@)
                && t@.value.wf(),
            Err(e) => parse_field(span.of(chars@)) == Err::<TagView, Failure>(e@),
        },
{
    let ghost col = span.of(chars@);
    let i: usize = find_in(chars, span.start, span.end, ':');
    if i == span.end {
        return Err(
            Error::new(
                ErrorKind::ReadRecord(
                    "Invalid PAF line: invalid optional field - too few parts".to_owned(),
                ),
            ),
        );
    }
    let ghost rest = col.skip(i - span.start + 1);
    proof {
        assert(rest =~= chars@.subrange(i + 1, span.end as int));
    }
    let j: usize = find_in(chars, i + 1, span.end, ':');
    if j == span.end {
        return Err(
            Error::new(
                ErrorKind::ReadRecord(
                    "Invalid PAF line: invalid optional field - too few parts".to_owned(),
                ),
            ),
        );
    }
    proof {
        assert(col.take(i - span.start) =~= chars@.subrange(span.start as int, i as int));
        assert(rest.take(j - i - 1) =~= chars@.subrange(i + 1, j as int));
        assert(rest.skip(j - i) =~= chars@.subrange(j + 1, span.end as int));
    }
    let value: Type = match Type::parse_chars(&chars[i + 1..j], &chars[j + 1..span.end]) {
        Some(v) => v,
        None => {
            let mut text: String = "Invalid PAF line: invalid optional field type: ".to_owned();
            push_chars(&mut text, chars, i + 1, j);
            return Err(Error::new(ErrorKind::ReadRecord(text)));
        },
    };
    proof {
        let t = Tag::tp(value);
        lemma_name_identifies_tag(t, chars@.subrange(span.start as int, i as int), value);
    }
    Tag::parse_chars(&chars[span.start..i], value)
}

/// The record that the characters of a line stand for; `line` is the number
/// that failures name.
pub fn parse_record_chars(chars: &[char], line: u64) -> (r: Result<PafRecord, Error>)
    ensures
        outcome(r) == parse_line(chars@, line),
        r matches Ok(record) ==> record.wf(),
{
    let end: usize = terminator_start(chars);
    let spans: Vec<Span> = split_spans(chars, 0, end, '\t');
    let ghost cols = split(strip_terminator(chars@), '\t');
    proof {
        assert(chars@.subrange(0, end as int) =~= chars@.take(end as int));
        assert(cols == pieces_of(chars@, spans@));
        assert(cols.len() == spans@.len());
    }
    if spans.len() < 12 {
        let mut text: String = "Invalid PAF at line ".to_owned();
        push_decimal(&mut text, line);
        text.append(": less than 12 mandatory fields");
        return Err(Error::new(ErrorKind::ReadRecord(text)));
    }
    proof {
        assert forall|k: int| 0 <= k < spans@.len() implies cols[k] == spans@[k].of(chars@) by {}
    }
    let query_name: String = text_of(chars, spans[0].start, spans[0].end);
    let query_len: u32 = column_u32(chars, spans[1])?;
    let query_start: u32 = column_u32(chars, spans[2])?;
    let query_end: u32 = column_u32(chars, spans[3])?;
    if spans[4].start == spans[4].end {
        return Err(Error::new(ErrorKind::ReadRecord("Empty strand field".to_owned())));
    }
    let strand: char = chars[spans[4].start];
    proof {
        assert(cols[4][0] == strand);
    }
    if strand != '+' && strand != '-' {
        let mut text: String = "Invalid strand field at line ".to_owned();
        push_decimal(&mut text, line);
        text.append(": ");
        text.push(strand);
        proof {
            assert(text@ =~= "Invalid strand field at line "@ + decimal(line as nat) + ": "@
                + seq![strand]);
        }
        return Err(Error::new(ErrorKind::ReadRecord(text)));
    }
    let target_name: String = text_of(chars, spans[5].start, spans[5].end);
    let target_len: u32 = column_u32(chars, spans[6])?;
    let target_start: u32 = column_u32(chars, spans[7])?;
    let target_end: u32 = column_u32(chars, spans[8])?;
    let residue_matches: u32 = column_u32(chars, spans[9])?;
    let alignment_block_len: u32 = column_u32(chars, spans[10])?;
    let mapping_quality: u8 = column_u8(chars, spans[11])?;
    proof {
        assert(pieces_of(chars@, spans@.skip(12)) =~= cols.skip(12));
    }
    let optional: OptionalFields = parse_optional_fields(chars, &spans, 12)?;
    Ok(
        PafRecord::new(
            query_name,
            query_len,
            query_start,
            query_end,
            strand,
            target_name,
            target_len,
            target_start,
            target_end,
            residue_matches,
            alignment_block_len,
            mapping_quality,
            optional,
        ),
    )
}

/// The optional fields that the columns of `chars` under the spans from
/// place `from` on stand for.
pub fn parse_optional_fields(chars: &[char], spans: &Vec<Span>, from: usize) -> (r: Result<
    OptionalFields,
    Error,
>)
    requires
        from <= spans@.len(),
        forall|k: int| 0 <= k < spans@.len() ==> (#[trigger] spans@[k]).within(chars@.len()),
    ensures
        match r {
            Ok(fields) => parse_fields(pieces_of(chars@, spans@.skip(from as int))) == Ok::<
                Seq<(Seq<char>, TagView)>,
                Failure,
            >(fields.entries()) && fields.wf(),
            Err(e) => parse_fields(pieces_of(chars@, spans@.skip(from as int))) == Err::<
                Seq<(Seq<char>, TagView)>,
                Failure,
            >(e@),
        },
{
    let ghost cols = pieces_of(chars@, spans@.skip(from as int));
    let mut fields: OptionalFields = OptionalFields::new();
    let mut k: usize = from;
    proof {
        assert(cols.take(0) =~= Seq::<Seq<char>>::empty());
    }
    while k < spans.len()
        invariant
            from <= k <= spans@.len(),
            cols == pieces_of(chars@, spans@.skip(from as int)),
            forall|k: int| 0 <= k < spans@.len() ==> (#[trigger] spans@[k]).within(chars@.len()),
            parse_fields(cols.take(k - from)) == Ok::<Seq<(Seq<char>, TagView)>, Failure>(
                fields.entries(),
            ),
            fields.wf(),
        decreases spans@.len() - k,
    {
        let ghost seen = cols.take(k - from);
        proof {
            assert(cols[k - from] == spans@[k as int].of(chars@));
            assert(cols.take(k - from + 1).drop_last() =~= seen);
            assert(cols.take(k - from + 1).last() == cols[k - from]);
        }
        match parse_optional_field(chars, spans[k]) {
            Ok(tag) => {
                fields.insert(tag.to_string(), tag);
            },
            Err(e) => {
                proof {
                    lemma_fields_fail_early(cols, k - from + 1);
                }
                return Err(e);
            },
        }
        k += 1;
    }
    proof {
        assert(cols.take(k - from) =~= cols);
    }
    Ok(fields)
}

/// The record that a line of text stands for; `line` is the number that
/// failures name.
pub fn parse_record(text: &str, line: u64) -> (r: Result<PafRecord, Error>)
    ensures
        outcome(r) == parse_line(text@, line),
        r matches Ok(record) ==> record.wf(),
{
    let chars: Vec<char> = chars_of(text);
    parse_record_chars(chars.as_slice(), line)
}

} // verus!
