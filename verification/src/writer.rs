//! From a record to its line of text, and a sink that collects such lines.

use vstd::prelude::*;
use vstd::string::{StrSliceExecFns, StringExecFns};
use vstd::utf8::encode_utf8;
use crate::error::Error;
use crate::number::{decimal, push_decimal, push_signed_decimal, signed_decimal};
use crate::record::{OptionalFields, PafRecord, RecordView};
use crate::value::{Tag, TagView, Type, Value};

verus! {

/// The text of a payload: a whole number in decimal, a real number as the
/// text that the record holds for it, text and a character as they are.
pub open spec fn value_text(v: Value) -> Seq<char> {
    match v {
        Value::Int(n) => signed_decimal(n as int),
        Value::Float(t) => t,
        Value::Text(t) => t,
        Value::Char(c) => seq![c],
    }
}

/// The column of an optional field: the name of the tag, the type code of
/// its payload and the payload, parted by colons. The name is the tag's own,
/// whatever key the tag is kept under. Nothing in the payload is escaped.
pub open spec fn field_column(tag: TagView) -> Seq<char> {
    tag.name + seq![':', tag.value.code(), ':'] + value_text(tag.value)
}

/// The text of the optional fields: for each entry in order a tab and the
/// column of the field.
pub open spec fn fields_text(es: Seq<(Seq<char>, TagView)>) -> Seq<char>
    decreases es.len(),
{
    if es.len() == 0 {
        Seq::empty()
    } else {
        fields_text(es.drop_last()) + seq!['\t'] + field_column(es.last().1)
    }
}

/// The text of the twelve mandatory fields, in their order, with a tab
/// between neighbours.
pub open spec fn mandatory_text(r: RecordView) -> Seq<char> {
    r.query_name + seq!['\t'] + decimal(r.query_len as nat) + seq!['\t'] + decimal(
        r.query_start as nat,
    ) + seq!['\t'] + decimal(r.query_end as nat) + seq!['\t'] + seq![r.strand] + seq!['\t']
        + r.target_name + seq!['\t'] + decimal(r.target_len as nat) + seq!['\t'] + decimal(
        r.target_start as nat,
    ) + seq!['\t'] + decimal(r.target_end as nat) + seq!['\t'] + decimal(
        r.residue_matches as nat,
    ) + seq!['\t'] + decimal(r.alignment_block_len as nat) + seq!['\t'] + decimal(
        r.mapping_quality as nat,
    )
}

/// The line of a record: the mandatory fields, the optional fields in the
/// order of the record's entries, and a line feed.
pub open spec fn record_text(r: RecordView) -> Seq<char> {
    mandatory_text(r) + fields_text(r.optional) + seq!['\n']
}

/// Appends a tab and the decimal text of `n`.
fn push_column(out: &mut String, n: u32)
    ensures
        final(out)@ == old(out)@ + seq!['\t'] + decimal(n as nat),
{
    out.push('\t');
    push_decimal(out, n as u64);
    proof {
        assert(old(out)@.push('\t') =~= old(out)@ + seq!['\t']);
    }
}

/// Appends a tab and the column of the field of name `tag` and payload
/// `value`. A real number is written as the text that the payload holds.
pub fn write_optional_field(out: &mut String, tag: &str, value: &Type)
    ensures
        final(out)@ == old(out)@ + seq!['\t'] + field_column(
            (TagView { name: tag@, value: value@ }),
        ),
{
    out.push('\t');
    out.append(tag);
    out.push(':');
    let ghost head = out@;
    match value {
        Type::Int(v) => {
            out.push('i');
            out.push(':');
            push_signed_decimal(out, *v);
        },
        Type::Float(t) => {
            out.push('f');
            out.push(':');
            out.append(t.as_str());
        },
        Type::String(t) => {
            out.push('Z');
            out.push(':');
            out.append(t.as_str());
        },
        Type::Char(c) => {
            out.push('A');
            out.push(':');
            out.push(*c);
        },
    }
    proof {
        let v = value@;
        assert(head =~= old(out)@ + seq!['\t'] + tag@ + seq![':']);
        assert(out@ =~= head + seq![v.code(), ':'] + value_text(v));
        assert(out@ =~= old(out)@ + seq!['\t'] + (tag@ + seq![':', v.code(), ':'] + value_text(
            v,
        )));
    }
}

/// The line of a record. Each optional field is written under the name of
/// its tag. A real number is written as the text that the record holds for
/// it: it has four digits after the decimal point where that text has them,
/// which `PafRecord::has_fixed_reals` tells.
pub fn format_record(record: &PafRecord) -> (line: String)
    ensures
        line@ == record_text(record@),
{
    let mut out: String = String::new();
    out.append(record.query_name());
    push_column(&mut out, record.query_len());
    push_column(&mut out, record.query_start());
    push_column(&mut out, record.query_end());
    out.push('\t');
    out.push(record.strand());
    out.push('\t');
    out.append(record.target_name());
    push_column(&mut out, record.target_len());
    push_column(&mut out, record.target_start());
    push_column(&mut out, record.target_end());
    push_column(&mut out, record.residue_matches());
    push_column(&mut out, record.alignment_block_len());
    push_column(&mut out, record.mapping_quality() as u32);
    proof {
        assert(out@ =~= mandatory_text(record@));
    }
    let fields: &OptionalFields = record.optional_fields();
    let mut i: usize = 0;
    proof {
        assert(fields.entries().take(0) =~= Seq::<(Seq<char>, TagView)>::empty());
    }
    while i < fields.len()
        invariant
            i <= fields.entries().len(),
            fields.entries() == record@.optional,
            out@ == mandatory_text(record@) + fields_text(fields.entries().take(i as int)),
        decreases fields.entries().len() - i,
    {
        proof {
            let next = fields.entries().take(i + 1);
            assert(next.drop_last() =~= fields.entries().take(i as int));
            assert(next.last() == fields.entries()[i as int]);
        }
        let tag: &Tag = fields.tag_at(i);
        let name: String = tag.to_string();
        write_optional_field(&mut out, name.as_str(), tag.value());
        i += 1;
    }
    out.push('\n');
    proof {
        assert(fields.entries().take(i as int) =~= fields.entries());
        assert(out@ =~= record_text(record@));
    }
    out
}

/// A sink of records: the bytes of the lines written so far.
pub struct Writer {
    writer: Vec<u8>,
}

impl Writer {
    /// The bytes written so far, after those that the sink began with.
    pub closed spec fn written(&self) -> Seq<u8> {
        self.writer@
    }

    /// A sink that goes on after the given bytes.
    pub fn new(writer: Vec<u8>) -> (w: Writer)
        ensures
            w.written() == writer@,
    {
        Writer { writer }
    }

    /// Appends the line of `record`, encoded as UTF-8. Writing to memory
    /// does not fail. A real number is written as the text that the record
    /// holds for it, as `format_record` says.
    pub fn write_record(&mut self, record: &PafRecord) -> (r: Result<(), Error>)
        ensures
            r is Ok,
            final(self).written() == old(self).written() + encode_utf8(record_text(record@)),
    {
        let line: String = format_record(record);
        let mut bytes: Vec<u8> = line.as_str().as_bytes_vec();
        self.writer.append(&mut bytes);
        Ok(())
    }

    /// The bytes written so far.
    pub fn get_ref(&self) -> (r: &Vec<u8>)
        ensures
            r@ == self.written(),
    {
        &self.writer
    }

    /// The bytes written, taken out of the sink.
    pub fn into_inner(self) -> (r: Vec<u8>)
        ensures
            r@ == self.written(),
    {
        self.writer
    }
}

} // verus!
