//! What holds of reading and writing taken together.

use vstd::prelude::*;
use vstd::utf8::{decode_utf8, decode_utf8_encode_utf8, encode_utf8, valid_utf8};
use crate::error::Failure;
use crate::number::{
    as_u32,
    as_u8,
    decimal,
    is_canonical,
    is_canonical_signed,
    is_digit,
    lemma_canonical_is_decimal,
    lemma_canonical_signed_is_decimal,
    lemma_decimal_spells,
    lemma_parse_decimal,
    lemma_parse_signed_decimal,
};
use crate::parse::{
    empty_strand,
    field_code,
    field_name,
    field_raw,
    has_three_parts,
    invalid_strand,
    lemma_fields_distinct,
    parse_field,
    parse_fields,
    parse_line,
    too_few_columns,
};
use crate::reader::{all_outcomes, parse_bytes};
use crate::realnum::is_fixed_text;
use crate::record::{distinct_keys, lemma_position_first, lemma_position_is, position, RecordView};
use crate::text::{
    find,
    join,
    lemma_find_first,
    lemma_find_is,
    lemma_join_prepend,
    lemma_join_split,
    lemma_split_at_first,
    lemma_split_without_separator,
    split,
    strip_terminator,
};
use crate::value::{is_tag_name, parse_value, reveal_names, unknown_tag, TagView, Value};
use crate::writer::{field_column, fields_text, mandatory_text, record_text, value_text};

verus! {

/// A line of fewer than twelve columns is no record: reading it fails with
/// the failure that names the line.
pub proof fn lemma_short_line_is_rejected(text: Seq<char>, line: u64)
    requires
        split(strip_terminator(text), '\t').len() < 12,
    ensures
        parse_line(text, line) == Err::<RecordView, Failure>(too_few_columns(line)),
        too_few_columns(line) is ReadRecord,
{
}

/// A line whose strand is neither `+` nor `-` is no record. Where the three
/// numbers before the strand can be read, the failure is the one that names
/// the line and the strand's first character; where the strand column is
/// empty, the one for an empty strand.
pub proof fn lemma_bad_strand_is_rejected(text: Seq<char>, line: u64)
    requires
        split(strip_terminator(text), '\t').len() >= 12,
        ({
            let strand = split(strip_terminator(text), '\t')[4];
            strand.len() == 0 || (strand[0] != '+' && strand[0] != '-')
        }),
    ensures
        parse_line(text, line) is Err,
        ({
            let cols = split(strip_terminator(text), '\t');
            as_u32(cols[1]) is Some && as_u32(cols[2]) is Some && as_u32(cols[3]) is Some
                ==> parse_line(text, line) == Err::<RecordView, Failure>(
                if cols[4].len() == 0 {
                    empty_strand()
                } else {
                    invalid_strand(line, cols[4][0])
                },
            )
        }),
        forall|c: char|
            invalid_strand(line, c) is ReadRecord && invalid_strand(line, c).text().last() == c,
{
}

/// An optional column whose name is not a recognised one is no field. Where
/// the column has its three parts and the payload suits the type code, the
/// failure is the one that names the tag.
pub proof fn lemma_unknown_tag_is_rejected(col: Seq<char>)
    requires
        !is_tag_name(field_name(col)),
    ensures
        parse_field(col) is Err,
        parse_field(col)->Err_0 is ReadRecord,
        has_three_parts(col) && parse_value(field_code(col), field_raw(col)) is Some
            ==> parse_field(col) == Err::<TagView, Failure>(unknown_tag(field_name(col))),
        unknown_tag(field_name(col)).text() == "Invalid PAF tag: "@ + field_name(col),
{
}

/// Where one of the columns is no field, the columns are no fields.
pub proof fn lemma_bad_field_fails_fields(cols: Seq<Seq<char>>, k: int)
    requires
        0 <= k < cols.len(),
        parse_field(cols[k]) is Err,
    ensures
        parse_fields(cols) is Err,
    decreases cols.len(),
{
    if k < cols.len() - 1 {
        lemma_bad_field_fails_fields(cols.drop_last(), k);
    }
}

/// A line with an optional column that is no field, for one with a name that
/// is not recognised, is no record.
pub proof fn lemma_bad_field_fails_line(text: Seq<char>, line: u64, k: int)
    requires
        12 <= k < split(strip_terminator(text), '\t').len(),
        parse_field(split(strip_terminator(text), '\t')[k]) is Err,
    ensures
        parse_line(text, line) is Err,
{
    let cols = split(strip_terminator(text), '\t');
    assert(cols.skip(12)[k - 12] == cols[k]);
    lemma_bad_field_fails_fields(cols.skip(12), k - 12);
}

/// The numeric columns among the first twelve are canonical, and the strand
/// column is one character.
pub open spec fn canonical_mandatory(cols: Seq<Seq<char>>) -> bool {
    &&& cols.len() >= 12
    &&& is_canonical(cols[1])
    &&& is_canonical(cols[2])
    &&& is_canonical(cols[3])
    &&& cols[4].len() == 1
    &&& is_canonical(cols[6])
    &&& is_canonical(cols[7])
    &&& is_canonical(cols[8])
    &&& is_canonical(cols[9])
    &&& is_canonical(cols[10])
    &&& is_canonical(cols[11])
}

/// Joining one piece more: the joined pieces so far, a separator, the piece.
pub proof fn lemma_join_next(pieces: Seq<Seq<char>>, sep: char, k: int)
    requires
        1 <= k < pieces.len(),
    ensures
        join(pieces.take(k + 1), sep) == join(pieces.take(k), sep) + seq![sep] + pieces[k],
{
    assert(pieces.take(k + 1).drop_last() =~= pieces.take(k));
    assert(pieces.take(k + 1).last() == pieces[k]);
}

/// A canonical column of 32 bits is the decimal text of the number it reads as.
proof fn lemma_u32_column(col: Seq<char>)
    requires
        is_canonical(col),
        as_u32(col) is Some,
    ensures
        decimal(as_u32(col)->Some_0 as nat) == col,
{
    assert(is_digit(col[0]));
    lemma_canonical_is_decimal(col);
}

/// A canonical column of 8 bits is the decimal text of the number it reads as.
proof fn lemma_u8_column(col: Seq<char>)
    requires
        is_canonical(col),
        as_u8(col) is Some,
    ensures
        decimal(as_u8(col)->Some_0 as nat) == col,
{
    assert(is_digit(col[0]));
    lemma_canonical_is_decimal(col);
}

/// Reading a line and writing the record gives back the first twelve
/// columns of the line as they were, where the numbers among them are
/// canonical and the strand is one character. The written line begins with
/// them.
pub proof fn lemma_mandatory_round_trip(text: Seq<char>, line: u64)
    requires
        parse_line(text, line) is Ok,
        canonical_mandatory(split(strip_terminator(text), '\t')),
    ensures
        mandatory_text(parse_line(text, line)->Ok_0) == join(
            split(strip_terminator(text), '\t').take(12),
            '\t',
        ),
        record_text(parse_line(text, line)->Ok_0).take(
            mandatory_text(parse_line(text, line)->Ok_0).len() as int,
        ) == mandatory_text(parse_line(text, line)->Ok_0),
{
    let cols = split(strip_terminator(text), '\t');
    let r = parse_line(text, line)->Ok_0;
    let first = cols.take(12);
    lemma_u32_column(cols[1]);
    lemma_u32_column(cols[2]);
    lemma_u32_column(cols[3]);
    lemma_u32_column(cols[6]);
    lemma_u32_column(cols[7]);
    lemma_u32_column(cols[8]);
    lemma_u32_column(cols[9]);
    lemma_u32_column(cols[10]);
    lemma_u8_column(cols[11]);
    assert(seq![r.strand] =~= cols[4]);
    assert(first.take(1) =~= seq![cols[0]]);
    assert(join(first.take(1), '\t') == cols[0]);
    lemma_join_next(first, '\t', 1);
    lemma_join_next(first, '\t', 2);
    lemma_join_next(first, '\t', 3);
    lemma_join_next(first, '\t', 4);
    lemma_join_next(first, '\t', 5);
    lemma_join_next(first, '\t', 6);
    lemma_join_next(first, '\t', 7);
    lemma_join_next(first, '\t', 8);
    lemma_join_next(first, '\t', 9);
    lemma_join_next(first, '\t', 10);
    lemma_join_next(first, '\t', 11);
    assert(first.take(12) =~= first);
    assert(record_text(r).take(mandatory_text(r).len() as int) =~= mandatory_text(r));
}

/// An optional column in the form in which it is written: three parts, a
/// type code among `i`, `f`, `Z` and `A`, a whole number in canonical form,
/// a character payload of one character.
pub open spec fn canonical_field(col: Seq<char>) -> bool {
    &&& has_three_parts(col)
    &&& {
        ||| field_code(col) == seq!['i'] && is_canonical_signed(field_raw(col))
        ||| field_code(col) == seq!['f']
        ||| field_code(col) == seq!['Z']
        ||| field_code(col) == seq!['A'] && field_raw(col).len() == 1
    }
}

/// Optional columns in the form in which they are written, no two of one name.
pub open spec fn canonical_fields(cols: Seq<Seq<char>>) -> bool {
    &&& forall|k: int| 0 <= k < cols.len() ==> canonical_field(#[trigger] cols[k])
    &&& forall|i: int, j: int|
        0 <= i < j < cols.len() ==> field_name(#[trigger] cols[i]) != field_name(
            #[trigger] cols[j],
        )
}

/// Each column with a tab in front of it.
pub open spec fn tabbed(cols: Seq<Seq<char>>) -> Seq<char>
    decreases cols.len(),
{
    if cols.len() == 0 {
        Seq::empty()
    } else {
        tabbed(cols.drop_last()) + seq!['\t'] + cols.last()
    }
}

/// The field that a canonical column stands for carries the column's name
/// and is written as the column was.
pub proof fn lemma_field_round_trip(col: Seq<char>)
    requires
        canonical_field(col),
        parse_field(col) is Ok,
    ensures
        parse_field(col)->Ok_0.name == field_name(col),
        field_column(parse_field(col)->Ok_0) == col,
{
    let i = find(col, ':');
    let rest = col.skip(i + 1);
    let j = find(rest, ':');
    let name = field_name(col);
    let code = field_code(col);
    let raw = field_raw(col);
    let t = parse_field(col)->Ok_0;
    lemma_find_first(col, ':');
    lemma_find_first(rest, ':');
    assert(col =~= name + seq![':'] + rest);
    assert(rest =~= code + seq![':'] + raw);
    if code == seq!['i'] {
        lemma_canonical_signed_is_decimal(raw, i64::MIN as int, i64::MAX as int);
        assert(code + seq![':'] =~= seq!['i', ':']);
    } else if code == seq!['f'] {
        assert(code + seq![':'] =~= seq!['f', ':']);
    } else if code == seq!['A'] {
        assert(seq![raw[0]] =~= raw);
        assert(code + seq![':'] =~= seq!['A', ':']);
    } else {
        assert(code + seq![':'] =~= seq!['Z', ':']);
    }
    assert(name + seq![':', t.value.code(), ':'] =~= name + seq![':'] + (code
        + seq![':']));
    assert(field_column(t) =~= name + seq![':'] + (code + seq![':'] + raw));
}

/// The fields that canonical columns stand for are as many as the columns,
/// each under its column's name, and are written as the columns were.
pub proof fn lemma_fields_round_trip(cols: Seq<Seq<char>>)
    requires
        canonical_fields(cols),
        parse_fields(cols) is Ok,
    ensures
        parse_fields(cols)->Ok_0.len() == cols.len(),
        forall|k: int|
            0 <= k < cols.len() ==> (#[trigger] parse_fields(cols)->Ok_0[k]).0 == field_name(
                cols[k],
            ),
        fields_text(parse_fields(cols)->Ok_0) == tabbed(cols),
    decreases cols.len(),
{
    if cols.len() > 0 {
        let front = cols.drop_last();
        let last = cols.last();
        assert forall|k: int| 0 <= k < front.len() implies canonical_field(
            #[trigger] front[k],
        ) by {
            assert(front[k] == cols[k]);
        }
        assert forall|i: int, j: int| 0 <= i < j < front.len() implies field_name(
            #[trigger] front[i],
        ) != field_name(#[trigger] front[j]) by {
            assert(front[i] == cols[i] && front[j] == cols[j]);
        }
        lemma_fields_round_trip(front);
        lemma_field_round_trip(last);
        let es = parse_fields(front)->Ok_0;
        let t = parse_field(last)->Ok_0;
        assert forall|k: int| 0 <= k < es.len() implies (#[trigger] es[k]).0 != t.name by {
            assert(front[k] == cols[k]);
            assert(field_name(cols[k]) != field_name(cols[cols.len() - 1]));
        }
        lemma_position_is(es, t.name, es.len() as int);
        let all = parse_fields(cols)->Ok_0;
        assert(all == es.push((t.name, t)));
        assert(all.drop_last() =~= es);
        assert forall|k: int| 0 <= k < cols.len() implies (#[trigger] all[k]).0 == field_name(
            cols[k],
        ) by {
            if k < es.len() {
                assert(all[k] == es[k]);
                assert(front[k] == cols[k]);
            }
        }
    }
}

/// Joined columns are the first `k` of them joined, then the others, each
/// with a tab in front of it.
pub proof fn lemma_join_tabbed(cols: Seq<Seq<char>>, k: int)
    requires
        1 <= k <= cols.len(),
    ensures
        join(cols, '\t') == join(cols.take(k), '\t') + tabbed(cols.skip(k)),
    decreases cols.len() - k,
{
    if k == cols.len() {
        assert(cols.take(k) =~= cols);
        assert(cols.skip(k) =~= Seq::<Seq<char>>::empty());
        assert(join(cols, '\t') + Seq::<char>::empty() =~= join(cols, '\t'));
    } else {
        let front = cols.drop_last();
        lemma_join_tabbed(front, k);
        assert(front.take(k) =~= cols.take(k));
        assert(cols.skip(k).drop_last() =~= front.skip(k));
        assert(cols.skip(k).last() == cols.last());
        assert(join(cols.take(k), '\t') + tabbed(front.skip(k)) + seq!['\t'] + cols.last()
            =~= join(cols.take(k), '\t') + (tabbed(front.skip(k)) + seq!['\t'] + cols.last()));
    }
}

/// Reading a line and writing the record gives back the line, with a line
/// feed for its terminator, where the line is
/// in the form in which records are written: canonical numbers, a strand of
/// one character, and canonical optional columns of distinct names.
pub proof fn lemma_line_round_trip(text: Seq<char>, line: u64)
    requires
        parse_line(text, line) is Ok,
        canonical_mandatory(split(strip_terminator(text), '\t')),
        canonical_fields(split(strip_terminator(text), '\t').skip(12)),
    ensures
        record_text(parse_line(text, line)->Ok_0) == strip_terminator(text) + seq!['\n'],
{
    let cols = split(strip_terminator(text), '\t');
    lemma_mandatory_round_trip(text, line);
    lemma_fields_round_trip(cols.skip(12));
    lemma_join_tabbed(cols, 12);
    lemma_join_split(strip_terminator(text), '\t');
}

/// Splitting joined pieces gives the pieces back, where none of them holds
/// the separator.
pub proof fn lemma_split_join(pieces: Seq<Seq<char>>, sep: char)
    requires
        pieces.len() >= 1,
        forall|p: int, k: int|
            0 <= p < pieces.len() && 0 <= k < pieces[p].len() ==> pieces[p][k] != sep,
    ensures
        split(join(pieces, sep), sep) == pieces,
    decreases pieces.len(),
{
    let head = pieces[0];
    if pieces.len() == 1 {
        lemma_split_without_separator(head, sep);
        assert(seq![head] =~= pieces);
    } else {
        let rest = pieces.skip(1);
        assert(seq![head] + rest =~= pieces);
        lemma_join_prepend(head, rest, sep);
        let s = join(pieces, sep);
        assert forall|p: int, k: int| 0 <= p < rest.len() && 0 <= k < rest[p].len() implies rest[p][k]
            != sep by {
            assert(rest[p] == pieces[p + 1]);
        }
        lemma_split_join(rest, sep);
        assert forall|k: int| 0 <= k < head.len() implies s[k] != sep by {
            assert(s[k] == head[k]);
        }
        lemma_split_at_first(s, sep, head.len() as int);
        assert(s.take(head.len() as int) =~= head);
        assert(s.skip(head.len() as int + 1) =~= join(rest, sep));
    }
}

/// The twelve mandatory columns of a record as they are written.
pub open spec fn mandatory_columns(r: RecordView) -> Seq<Seq<char>> {
    seq![
        r.query_name,
        decimal(r.query_len as nat),
        decimal(r.query_start as nat),
        decimal(r.query_end as nat),
        seq![r.strand],
        r.target_name,
        decimal(r.target_len as nat),
        decimal(r.target_start as nat),
        decimal(r.target_end as nat),
        decimal(r.residue_matches as nat),
        decimal(r.alignment_block_len as nat),
        decimal(r.mapping_quality as nat),
    ]
}

/// The columns of optional fields as they are written.
pub open spec fn field_columns(es: Seq<(Seq<char>, TagView)>) -> Seq<Seq<char>> {
    Seq::new(es.len(), |k: int| field_column(es[k].1))
}

/// All the columns of a record as they are written.
pub open spec fn record_columns(r: RecordView) -> Seq<Seq<char>> {
    mandatory_columns(r) + field_columns(r.optional)
}

/// A record is written as its columns, joined by tabs, and a line feed.
pub proof fn lemma_record_text_is_joined_columns(r: RecordView)
    ensures
        record_text(r) == join(record_columns(r), '\t') + seq!['\n'],
        mandatory_text(r) == join(mandatory_columns(r), '\t'),
{
    let m = mandatory_columns(r);
    assert(m.take(1) =~= seq![m[0]]);
    assert(join(m.take(1), '\t') == m[0]);
    lemma_join_next(m, '\t', 1);
    lemma_join_next(m, '\t', 2);
    lemma_join_next(m, '\t', 3);
    lemma_join_next(m, '\t', 4);
    lemma_join_next(m, '\t', 5);
    lemma_join_next(m, '\t', 6);
    lemma_join_next(m, '\t', 7);
    lemma_join_next(m, '\t', 8);
    lemma_join_next(m, '\t', 9);
    lemma_join_next(m, '\t', 10);
    lemma_join_next(m, '\t', 11);
    assert(m.take(12) =~= m);
    lemma_fields_text_is_tabbed(r.optional);
    let all = record_columns(r);
    lemma_join_tabbed(all, 12);
    assert(all.take(12) =~= m);
    assert(all.skip(12) =~= field_columns(r.optional));
}

/// Optional fields are written as their columns, each with a tab in front.
pub proof fn lemma_fields_text_is_tabbed(es: Seq<(Seq<char>, TagView)>)
    ensures
        fields_text(es) == tabbed(field_columns(es)),
    decreases es.len(),
{
    if es.len() > 0 {
        lemma_fields_text_is_tabbed(es.drop_last());
        assert(field_columns(es).drop_last() =~= field_columns(es.drop_last()));
    }
}

/// An entry that reads back as it is written: a tag under its own name,
/// around a well-formed payload whose text holds no tab.
pub open spec fn writable_entry(e: (Seq<char>, TagView)) -> bool {
    &&& e.0 == e.1.name
    &&& is_tag_name(e.0)
    &&& e.1.value.wf()
    &&& forall|k: int|
        0 <= k < value_text(e.1.value).len() ==> value_text(e.1.value)[k] != '\t'
}

/// A record that reads back as it is written. Its names hold no tab; the
/// strand is `+` or `-`; the optional fields are writable entries under
/// distinct keys; and the line does not end in a carriage return before its
/// line feed, which would be taken for a part of the terminator.
pub open spec fn writable(r: RecordView) -> bool {
    &&& forall|k: int| 0 <= k < r.query_name.len() ==> r.query_name[k] != '\t'
    &&& forall|k: int| 0 <= k < r.target_name.len() ==> r.target_name[k] != '\t'
    &&& (r.strand == '+' || r.strand == '-')
    &&& forall|k: int| 0 <= k < r.optional.len() ==> writable_entry(#[trigger] r.optional[k])
    &&& distinct_keys(r.optional)
    &&& {
        let body = join(record_columns(r), '\t');
        body.len() == 0 || body.last() != '\r'
    }
}

/// The decimal text of a number holds no tab.
proof fn lemma_decimal_has_no_tab(n: nat)
    ensures
        forall|k: int| 0 <= k < decimal(n).len() ==> decimal(n)[k] != '\t',
{
    lemma_decimal_spells(n);
    assert forall|k: int| 0 <= k < decimal(n).len() implies decimal(n)[k] != '\t' by {
        assert(is_digit(decimal(n)[k]));
    }
}

/// A writable entry is written as a column that reads back as the entry's
/// tag, and that holds no tab.
pub proof fn lemma_written_field_reads_back(e: (Seq<char>, TagView))
    requires
        writable_entry(e),
    ensures
        parse_field(field_column(e.1)) == Ok::<TagView, Failure>(e.1),
        forall|k: int| 0 <= k < field_column(e.1).len() ==> field_column(e.1)[k] != '\t',
{
    reveal_names();
    let key = e.0;
    let value = e.1.value;
    let text = value_text(value);
    let col = field_column(e.1);
    let c = value.code();
    assert(key.len() == 2 && key[0] != ':' && key[1] != ':' && key[0] != '\t' && key[1] != '\t');
    assert(col =~= key + seq![':'] + (seq![c, ':'] + text));
    lemma_find_is(col, ':', 2);
    let rest = col.skip(3);
    assert(rest =~= seq![c, ':'] + text);
    lemma_find_is(rest, ':', 1);
    assert(col.take(2) =~= key);
    assert(rest.take(1) =~= seq![c]);
    assert(rest.skip(2) =~= text);
    match value {
        Value::Int(v) => {
            lemma_parse_signed_decimal(v as int, i64::MIN as int, i64::MAX as int);
        },
        Value::Float(t) => {},
        Value::Text(t) => {
            assert(seq!['Z'] != seq!['i'] && seq!['Z'] != seq!['f'] && seq!['Z'] != seq!['A']) by {
                assert(seq!['Z'][0] == 'Z');
                assert(seq!['i'][0] == 'i');
                assert(seq!['f'][0] == 'f');
                assert(seq!['A'][0] == 'A');
            }
        },
        Value::Char(x) => {
            assert(seq!['A'] != seq!['i'] && seq!['A'] != seq!['f']) by {
                assert(seq!['A'][0] == 'A');
                assert(seq!['i'][0] == 'i');
                assert(seq!['f'][0] == 'f');
            }
        },
    }
    assert(seq!['f'] != seq!['i']) by {
        assert(seq!['f'][0] == 'f');
        assert(seq!['i'][0] == 'i');
    }
    assert forall|k: int| 0 <= k < col.len() implies col[k] != '\t' by {
        if k >= 5 {
            assert(col[k] == text[k - 5]);
        }
    }
}

/// Writable entries under distinct keys are written as columns that read
/// back as the entries.
pub proof fn lemma_written_fields_read_back(es: Seq<(Seq<char>, TagView)>)
    requires
        forall|k: int| 0 <= k < es.len() ==> writable_entry(#[trigger] es[k]),
        distinct_keys(es),
    ensures
        parse_fields(field_columns(es)) == Ok::<Seq<(Seq<char>, TagView)>, Failure>(es),
    decreases es.len(),
{
    let cols = field_columns(es);
    if es.len() == 0 {
        assert(es =~= Seq::empty());
    } else {
        let front = es.drop_last();
        let last = es.last();
        assert forall|k: int| 0 <= k < front.len() implies writable_entry(#[trigger] front[k]) by {
            assert(front[k] == es[k]);
        }
        assert forall|i: int, j: int| 0 <= i < j < front.len() implies (#[trigger] front[i]).0 != (
        #[trigger] front[j]).0 by {
            assert(front[i] == es[i] && front[j] == es[j]);
        }
        lemma_written_fields_read_back(front);
        assert(cols.drop_last() =~= field_columns(front));
        assert(cols.last() == field_column(last.1));
        lemma_written_field_reads_back(last);
        assert forall|k: int| 0 <= k < front.len() implies (#[trigger] front[k]).0 != last.0 by {
            assert(front[k] == es[k]);
            assert(es[k].0 != es[es.len() - 1].0);
        }
        lemma_position_is(front, last.0, front.len() as int);
        assert(front.push((last.0, last.1)) =~= es);
    }
}

/// Writing a record and reading the line gives back the record, where the
/// record is writable.
pub proof fn lemma_record_round_trip(r: RecordView, line: u64)
    requires
        writable(r),
    ensures
        parse_line(record_text(r), line) == Ok::<RecordView, Failure>(r),
{
    let cols = record_columns(r);
    let m = mandatory_columns(r);
    let f = field_columns(r.optional);
    let body = join(cols, '\t');
    let text = record_text(r);
    lemma_record_text_is_joined_columns(r);
    lemma_decimal_has_no_tab(r.query_len as nat);
    lemma_decimal_has_no_tab(r.query_start as nat);
    lemma_decimal_has_no_tab(r.query_end as nat);
    lemma_decimal_has_no_tab(r.target_len as nat);
    lemma_decimal_has_no_tab(r.target_start as nat);
    lemma_decimal_has_no_tab(r.target_end as nat);
    lemma_decimal_has_no_tab(r.residue_matches as nat);
    lemma_decimal_has_no_tab(r.alignment_block_len as nat);
    lemma_decimal_has_no_tab(r.mapping_quality as nat);
    assert forall|p: int, k: int| 0 <= p < cols.len() && 0 <= k < cols[p].len() implies cols[p][k]
        != '\t' by {
        if p >= 12 {
            assert(cols[p] == f[p - 12]);
            lemma_written_field_reads_back(r.optional[p - 12]);
        } else {
            assert(cols[p] == m[p]);
        }
    }
    lemma_split_join(cols, '\t');
    // the text without its terminator is the joined columns
    assert(text.drop_last() =~= body);
    assert(strip_terminator(text) == body);
    // each column reads back
    lemma_parse_decimal(r.query_len as nat, u32::MAX as nat);
    lemma_parse_decimal(r.query_start as nat, u32::MAX as nat);
    lemma_parse_decimal(r.query_end as nat, u32::MAX as nat);
    lemma_parse_decimal(r.target_len as nat, u32::MAX as nat);
    lemma_parse_decimal(r.target_start as nat, u32::MAX as nat);
    lemma_parse_decimal(r.target_end as nat, u32::MAX as nat);
    lemma_parse_decimal(r.residue_matches as nat, u32::MAX as nat);
    lemma_parse_decimal(r.alignment_block_len as nat, u32::MAX as nat);
    lemma_parse_decimal(r.mapping_quality as nat, u8::MAX as nat);
    assert(cols.skip(12) =~= f);
    lemma_written_fields_read_back(r.optional);
    assert(cols[0] == m[0] && cols[1] == m[1] && cols[2] == m[2] && cols[3] == m[3]);
    assert(cols[4] == m[4] && cols[5] == m[5] && cols[6] == m[6] && cols[7] == m[7]);
    assert(cols[8] == m[8] && cols[9] == m[9] && cols[10] == m[10] && cols[11] == m[11]);
}

/// What holds of every entry that reading gives: the key is the name of the
/// tag, the name is a recognised one, and the payload is well formed.
pub open spec fn sound_entry(e: (Seq<char>, TagView)) -> bool {
    e.0 == e.1.name && is_tag_name(e.0) && e.1.value.wf()
}

/// The fields that columns stand for are sound entries under distinct keys.
pub proof fn lemma_read_fields_are_sound(cols: Seq<Seq<char>>)
    ensures
        parse_fields(cols) matches Ok(es) ==> distinct_keys(es) && forall|k: int|
            0 <= k < es.len() ==> sound_entry(#[trigger] es[k]),
    decreases cols.len(),
{
    lemma_fields_distinct(cols);
    if cols.len() > 0 {
        lemma_read_fields_are_sound(cols.drop_last());
        if let Ok(front) = parse_fields(cols.drop_last()) {
            if let Ok(t) = parse_field(cols.last()) {
                lemma_position_first(front, t.name);
                let es = parse_fields(cols)->Ok_0;
                assert forall|k: int| 0 <= k < es.len() implies sound_entry(#[trigger] es[k]) by {
                    if k < front.len() && k != position(front, t.name) {
                        assert(es[k] == front[k]);
                    }
                }
            }
        }
    }
}

/// A record that was read has a strand of `+` or `-`, and its optional
/// fields are sound entries under distinct keys.
pub proof fn lemma_read_record_is_sound(text: Seq<char>, line: u64)
    ensures
        parse_line(text, line) matches Ok(r) ==> {
            &&& r.strand == '+' || r.strand == '-'
            &&& distinct_keys(r.optional)
            &&& forall|k: int| 0 <= k < r.optional.len() ==> sound_entry(#[trigger] r.optional[k])
        },
{
    lemma_read_fields_are_sound(split(strip_terminator(text), '\t').skip(12));
}

/// Reading goes on after a line, whatever the line stood for: what a source
/// gives is what its first line gives, then what the rest of the source
/// gives, counted from the next line number. The first line here is `first`:
/// bytes that end in a line feed and hold no other.
pub proof fn lemma_reading_goes_on(first: Seq<u8>, rest: Seq<u8>, line: nat)
    requires
        first.len() > 0,
        first.last() == 10u8,
        forall|k: int| 0 <= k < first.len() - 1 ==> first[k] != 10u8,
    ensures
        all_outcomes(first + rest, line) == seq![parse_bytes(first, (line + 1) as u64)]
            + all_outcomes(rest, line + 1),
{
    let bytes = first + rest;
    assert forall|k: int| 0 <= k < first.len() - 1 implies bytes[k] != 10u8 by {
        assert(bytes[k] == first[k]);
    }
    assert(bytes[first.len() - 1] == first.last());
    lemma_find_is(bytes, 10u8, first.len() - 1);
    assert(bytes.take(first.len() as int) =~= first);
    assert(bytes.skip(first.len() as int) =~= rest);
}

/// A text that ends in a line feed with no carriage return before it.
pub open spec fn ends_in_line_feed(text: Seq<char>) -> bool {
    &&& text.len() > 0
    &&& text.last() == '\n'
    &&& (text.len() == 1 || text[text.len() - 2] != '\r')
}

/// Reading the bytes of a line and writing the record gives back the very
/// bytes, where the line ends in a line feed and is in the form in which
/// records are written.
pub proof fn lemma_bytes_round_trip(bytes: Seq<u8>, line: u64)
    requires
        valid_utf8(bytes),
        ends_in_line_feed(decode_utf8(bytes)),
        parse_bytes(bytes, line) is Ok,
        canonical_mandatory(split(strip_terminator(decode_utf8(bytes)), '\t')),
        canonical_fields(split(strip_terminator(decode_utf8(bytes)), '\t').skip(12)),
    ensures
        encode_utf8(record_text(parse_bytes(bytes, line)->Ok_0)) == bytes,
{
    let text = decode_utf8(bytes);
    lemma_line_round_trip(text, line);
    assert(strip_terminator(text) + seq!['\n'] =~= text);
    decode_utf8_encode_utf8(bytes);
}

/// A source of one line in the form in which records are written gives one
/// record, and writing that record gives back the bytes of the source.
pub proof fn lemma_source_round_trip(bytes: Seq<u8>, lines_read: nat)
    requires
        bytes.len() > 0,
        bytes.last() == 10u8,
        forall|k: int| 0 <= k < bytes.len() - 1 ==> bytes[k] != 10u8,
        valid_utf8(bytes),
        ends_in_line_feed(decode_utf8(bytes)),
        parse_bytes(bytes, (lines_read + 1) as u64) is Ok,
        canonical_mandatory(split(strip_terminator(decode_utf8(bytes)), '\t')),
        canonical_fields(split(strip_terminator(decode_utf8(bytes)), '\t').skip(12)),
    ensures
        all_outcomes(bytes, lines_read) == seq![parse_bytes(bytes, (lines_read + 1) as u64)],
        encode_utf8(record_text(parse_bytes(bytes, (lines_read + 1) as u64)->Ok_0)) == bytes,
{
    lemma_reading_goes_on(bytes, Seq::empty(), lines_read);
    assert(bytes + Seq::<u8>::empty() =~= bytes);
    lemma_bytes_round_trip(bytes, (lines_read + 1) as u64);
}

/// Where the reals of a record are fixed, each real number is written with
/// exactly four digits after the decimal point: its column is the name of
/// the tag, the type code `f` and a text of that form.
pub proof fn lemma_fixed_reals_are_written_fixed(r: RecordView, k: int)
    requires
        r.reals_fixed(),
        0 <= k < r.optional.len(),
        r.optional[k].1.value is Float,
    ensures
        field_columns(r.optional)[k] == r.optional[k].1.name + seq![':', 'f', ':']
            + r.optional[k].1.value->Float_0,
        is_fixed_text(r.optional[k].1.value->Float_0),
{
}

} // verus!
