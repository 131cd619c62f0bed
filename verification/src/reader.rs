//! Reading records from the bytes of a source, one line at a time.

use vstd::prelude::*;
use vstd::slice::slice_to_vec;
use vstd::utf8::{decode_utf8, valid_utf8};
use crate::error::{Error, ErrorKind, Failure};
use crate::parse::{parse_line, parse_record};
use crate::record::{PafRecord, RecordView};
use crate::text::{find, lemma_find_first, lemma_find_is};

verus! {

/// The length of the first line of `bytes`, its line feed included; all of
/// `bytes` where they hold no line feed.
pub open spec fn line_length(bytes: Seq<u8>) -> int {
    let i = find(bytes, 10u8);
    if i < bytes.len() {
        i + 1
    } else {
        bytes.len() as int
    }
}

/// The failure for a line whose bytes are no text.
pub open spec fn invalid_text() -> Failure {
    Failure::Io("stream did not contain valid UTF-8"@)
}

/// The record that the bytes of one line stand for; `line` is the number
/// that failures name. Bytes that are not UTF-8 are a failure of the source.
pub open spec fn parse_bytes(bytes: Seq<u8>, line: u64) -> Result<RecordView, Failure> {
    if valid_utf8(bytes) {
        parse_line(decode_utf8(bytes), line)
    } else {
        Err(invalid_text())
    }
}

/// What one read gives, as plain values: nothing at the end of the source,
/// else a record or a failure.
pub open spec fn read_outcome(r: Result<Option<PafRecord>, Error>) -> Option<
    Result<RecordView, Failure>,
> {
    match r {
        Ok(None) => None,
        Ok(Some(record)) => Some(Ok(record@)),
        Err(e) => Some(Err(e@)),
    }
}

/// What one step of an iterator gives, as plain values: nothing at the end
/// of the source, else a record or a failure.
pub open spec fn step_outcome(r: Option<Result<PafRecord, Error>>) -> Option<
    Result<RecordView, Failure>,
> {
    match r {
        None => None,
        Some(Ok(record)) => Some(Ok(record@)),
        Some(Err(e)) => Some(Err(e@)),
    }
}

/// What reading a source to its end gives, line after line: for each line
/// the record it stands for or the failure; `line` is the number of lines
/// read before. A line that is no record does not end the reading.
pub open spec fn all_outcomes(bytes: Seq<u8>, line: nat) -> Seq<Result<RecordView, Failure>>
    decreases bytes.len(),
{
    if bytes.len() == 0 {
        Seq::empty()
    } else {
        let n = line_length(bytes);
        if 0 < n <= bytes.len() {
            seq![parse_bytes(bytes.take(n), (line + 1) as u64)] + all_outcomes(
                bytes.skip(n),
                line + 1,
            )
        } else {
            Seq::empty()
        }
    }
}

/// A source that is not at its end has a first line of one byte at least,
/// and of no more bytes than the source holds.
pub proof fn lemma_line_length_bounds(bytes: Seq<u8>)
    requires
        bytes.len() > 0,
    ensures
        0 < line_length(bytes) <= bytes.len(),
{
    lemma_find_first(bytes, 10u8);
}

/// Records and failures as plain values.
pub open spec fn outcomes_of(items: Seq<Result<PafRecord, Error>>) -> Seq<
    Result<RecordView, Failure>,
> {
    Seq::new(items.len(), |k: int| crate::parse::outcome(items[k]))
}

/// The record that a read or a step gave has no two optional fields under
/// one key.
pub open spec fn record_wf(r: Option<Result<PafRecord, Error>>) -> bool {
    r matches Some(Ok(record)) ==> record.wf()
}

/// Text of the given bytes, where they are UTF-8.
///
/// Trusted: `core::str::from_utf8` succeeds exactly on well-formed UTF-8,
/// and the text it gives is made of the very bytes it was given.
pub assume_specification<'a>[ core::str::from_utf8 ](v: &'a [u8]) -> (r: Result<
    &'a str,
    core::str::Utf8Error,
>)
    ensures
        r is Ok <==> valid_utf8(v@),
        r matches Ok(s) ==> s@ == decode_utf8(v@),
;

/// The error of `core::str::from_utf8`.
#[verifier::external_type_specification]
#[verifier::external_body]
pub struct ExUtf8Error(core::str::Utf8Error);

/// A source of records: the bytes of the source, how far they have been
/// read, and how many lines that was.
pub struct Reader {
    data: Vec<u8>,
    pos: usize,
    line: u64,
}

impl Reader {
    /// The bytes that have not been read yet.
    pub closed spec fn remaining(&self) -> Seq<u8> {
        self.data@.skip(self.pos as int)
    }

    /// The number of lines read so far.
    pub closed spec fn lines_read(&self) -> u64 {
        self.line
    }

    /// The reader has not read past its bytes, and no more lines than bytes.
    pub closed spec fn wf(&self) -> bool {
        self.pos <= self.data@.len() && self.line <= self.pos
    }

    /// Whether all bytes have been read.
    pub open spec fn at_end(&self) -> bool {
        self.remaining().len() == 0
    }

    /// The bytes of the next line, its line feed included.
    pub open spec fn next_line(&self) -> Seq<u8> {
        self.remaining().take(line_length(self.remaining()))
    }

    /// What the next read gives: nothing at the end of the source, else
    /// what the next line stands for. A failure names the line by its
    /// number, the first line being line 1.
    pub open spec fn next_outcome(&self) -> Option<Result<RecordView, Failure>> {
        if self.at_end() {
            None
        } else {
            Some(parse_bytes(self.next_line(), (self.lines_read() + 1) as u64))
        }
    }

    /// `after` is this reader one read later: at the end of the source
    /// nothing has changed, else the next line is gone from the remaining
    /// bytes and counted.
    pub open spec fn advances_to(&self, after: &Reader) -> bool {
        if self.at_end() {
            after.remaining() == self.remaining() && after.lines_read() == self.lines_read()
        } else {
            after.remaining() == self.remaining().skip(line_length(self.remaining()))
                && after.lines_read() == self.lines_read() + 1
        }
    }

    /// A reader of the given bytes.
    pub fn new(data: Vec<u8>) -> (r: Reader)
        ensures
            r.wf(),
            r.remaining() == data@,
            r.lines_read() == 0,
    {
        Reader { data, pos: 0, line: 0 }
    }

    /// A reader of a copy of the given bytes.
    pub fn from_reader(rdr: &[u8]) -> (r: Reader)
        ensures
            r.wf(),
            r.remaining() == rdr@,
            r.lines_read() == 0,
    {
        Reader::new(slice_to_vec(rdr))
    }

    /// The number of lines read so far.
    pub fn line(&self) -> (n: u64)
        ensures
            n == self.lines_read(),
    {
        self.line
    }

    /// An iterator over the records that borrows the reader.
    pub fn records(&mut self) -> (it: RecordsIter<'_>)
        ensures
            it.source() == *old(self),
            *final(it.rdr) == *final(self),
    {
        RecordsIter::new(self)
    }

    /// An iterator over the records that owns the reader.
    pub fn into_records(self) -> (it: RecordsIntoIter)
        ensures
            it.source() == self,
    {
        RecordsIntoIter::new(self)
    }

    /// Reads the source to its end and gives, for each line in order, the
    /// record it stands for or the failure.
    pub fn read_all(&mut self) -> (items: Vec<Result<PafRecord, Error>>)
        requires
            old(self).wf(),
        ensures
            final(self).wf(),
            final(self).at_end(),
            outcomes_of(items@) == all_outcomes(
                old(self).remaining(),
                old(self).lines_read() as nat,
            ),
            forall|k: int| 0 <= k < items@.len() ==> record_wf(Some(#[trigger] items@[k])),
    {
        let mut items: Vec<Result<PafRecord, Error>> = Vec::new();
        loop
            invariant
                self.wf(),
                outcomes_of(items@) + all_outcomes(self.remaining(), self.lines_read() as nat)
                    == all_outcomes(old(self).remaining(), old(self).lines_read() as nat),
                forall|k: int| 0 <= k < items@.len() ==> record_wf(Some(#[trigger] items@[k])),
            ensures
                self.wf(),
                self.at_end(),
                outcomes_of(items@) == all_outcomes(
                    old(self).remaining(),
                    old(self).lines_read() as nat,
                ),
                forall|k: int| 0 <= k < items@.len() ==> record_wf(Some(#[trigger] items@[k])),
            decreases self.remaining().len(),
        {
            let ghost before = *self;
            let ghost seen = items@;
            let item: Result<PafRecord, Error> = match self.read_record() {
                Ok(Some(record)) => Ok(record),
                Ok(None) => {
                    proof {
                        assert(outcomes_of(items@) + Seq::<Result<RecordView, Failure>>::empty()
                            =~= outcomes_of(items@));
                    }
                    break ;
                },
                Err(e) => Err(e),
            };
            items.push(item);
            proof {
                lemma_line_length_bounds(before.remaining());
                let rest = all_outcomes(self.remaining(), self.lines_read() as nat);
                let next = before.next_outcome()->Some_0;
                assert(outcomes_of(items@) =~= outcomes_of(seen) + seq![next]);
                assert(outcomes_of(seen) + (seq![next] + rest) =~= outcomes_of(seen) + seq![next]
                    + rest);
            }
        }
        items
    }

    /// Reads the next line and gives the record it stands for; `None` at the
    /// end of the source. A line that is no record is a failure of this read
    /// only: the line is read and counted all the same, and the next read
    /// goes on with the line after it.
    pub fn read_record(&mut self) -> (r: Result<Option<PafRecord>, Error>)
        requires
            old(self).wf(),
        ensures
            final(self).wf(),
            old(self).advances_to(final(self)),
            old(self).at_end() || final(self).remaining().len() < old(self).remaining().len(),
            read_outcome(r) == old(self).next_outcome(),
            r matches Ok(Some(record)) ==> record.wf(),
    {
        let start: usize = self.pos;
        if start == self.data.len() {
            return Ok(None);
        }
        let mut end: usize = start;
        while end < self.data.len() && self.data[end] != 10u8
            invariant
                start <= end <= self.data@.len(),
                forall|k: int| start <= k < end ==> self.data@[k] != 10u8,
            decreases self.data@.len() - end,
        {
            end += 1;
        }
        proof {
            lemma_find_is(self.remaining(), 10u8, end - start);
        }
        if end < self.data.len() {
            end += 1;
        }
        proof {
            assert(self.data@.skip(end as int) =~= self.remaining().skip(end - start));
            assert(self.data@.subrange(start as int, end as int) =~= self.remaining().take(
                end - start,
            ));
        }
        self.pos = end;
        self.line = self.line + 1;
        match core::str::from_utf8(&self.data.as_slice()[start..end]) {
            Ok(text) => match parse_record(text, self.line) {
                Ok(record) => Ok(Some(record)),
                Err(e) => Err(e),
            },
            Err(_) => Err(
                Error::new(ErrorKind::Io("stream did not contain valid UTF-8".to_owned())),
            ),
        }
    }
}

/// An iterator over the records of a reader that it borrows.
pub struct RecordsIter<'r> {
    /// The reader that the iterator borrows.
    pub rdr: &'r mut Reader,
}

impl<'r> RecordsIter<'r> {
    /// The reader as it stands.
    pub open spec fn source(&self) -> Reader {
        *self.rdr
    }

    /// An iterator over the records of `rdr`.
    pub fn new(rdr: &'r mut Reader) -> (it: RecordsIter<'r>)
        ensures
            it.source() == *old(rdr),
            *final(it.rdr) == *final(rdr),
    {
        RecordsIter { rdr }
    }

    /// The reader.
    pub fn reader(&self) -> (r: &Reader)
        ensures
            *r == self.source(),
    {
        self.rdr
    }

    /// The reader, to change it.
    pub fn reader_mut(&mut self) -> (r: &mut Reader)
        ensures
            *r == old(self).source(),
            final(self).source() == *final(r),
            *final(final(self).rdr) == *final(old(self).rdr),
    {
        self.rdr
    }

    /// The next record or failure; `None` at the end of the source. A
    /// failure does not end the iteration.
    pub fn next(&mut self) -> (r: Option<Result<PafRecord, Error>>)
        requires
            old(self).source().wf(),
        ensures
            final(self).source().wf(),
            old(self).source().advances_to(&final(self).source()),
            old(self).source().at_end() || final(self).source().remaining().len() < old(
                self,
            ).source().remaining().len(),
            step_outcome(r) == old(self).source().next_outcome(),
            record_wf(r),
            *final(final(self).rdr) == *final(old(self).rdr),
    {
        match self.rdr.read_record() {
            Ok(Some(record)) => Some(Ok(record)),
            Ok(None) => None,
            Err(e) => Some(Err(e)),
        }
    }
}

/// An iterator over the records of a reader that it owns.
pub struct RecordsIntoIter {
    rdr: Reader,
}

impl RecordsIntoIter {
    /// The reader as it stands.
    pub closed spec fn source(&self) -> Reader {
        self.rdr
    }

    /// An iterator over the records of `rdr`.
    pub fn new(rdr: Reader) -> (it: RecordsIntoIter)
        ensures
            it.source() == rdr,
    {
        RecordsIntoIter { rdr }
    }

    /// The reader.
    pub fn reader(&self) -> (r: &Reader)
        ensures
            *r == self.source(),
    {
        &self.rdr
    }

    /// The reader, to change it.
    pub fn reader_mut(&mut self) -> (r: &mut Reader)
        ensures
            *r == old(self).source(),
            final(self).source() == *final(r),
    {
        &mut self.rdr
    }

    /// Gives the reader back and ends the iteration.
    pub fn into_reader(self) -> (r: Reader)
        ensures
            r == self.source(),
    {
        self.rdr
    }

    /// The next record or failure; `None` at the end of the source. A
    /// failure does not end the iteration.
    pub fn next(&mut self) -> (r: Option<Result<PafRecord, Error>>)
        requires
            old(self).source().wf(),
        ensures
            final(self).source().wf(),
            old(self).source().advances_to(&final(self).source()),
            old(self).source().at_end() || final(self).source().remaining().len() < old(
                self,
            ).source().remaining().len(),
            step_outcome(r) == old(self).source().next_outcome(),
            record_wf(r),
    {
        match self.rdr.read_record() {
            Ok(Some(record)) => Some(Ok(record)),
            Ok(None) => None,
            Err(e) => Some(Err(e)),
        }
    }
}

} // verus!
