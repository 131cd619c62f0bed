//! One alignment: the twelve mandatory fields and the optional fields.

use vstd::prelude::*;
use crate::realnum::{fixed_text, is_fixed_text};
use crate::text::chars_of;
use crate::value::{Tag, TagView, Type, Value};

verus! {

/// No two entries share a key.
pub open spec fn distinct_keys(es: Seq<(Seq<char>, TagView)>) -> bool {
    forall|i: int, j: int| 0 <= i < j < es.len() ==> (#[trigger] es[i]).0 != (#[trigger] es[j]).0
}

/// Position of the first entry under `key`, or `es.len()` where there is none.
pub open spec fn position(es: Seq<(Seq<char>, TagView)>, key: Seq<char>) -> int
    decreases es.len(),
{
    if es.len() == 0 {
        0
    } else if es[0].0 == key {
        0
    } else {
        1 + position(es.drop_first(), key)
    }
}

/// The tag under `key`, if there is one.
pub open spec fn lookup(es: Seq<(Seq<char>, TagView)>, key: Seq<char>) -> Option<TagView> {
    let i = position(es, key);
    if 0 <= i < es.len() {
        Some(es[i].1)
    } else {
        None
    }
}

/// The entries with `tag` under `key`: in the place of the entry that was
/// under that key, or at the end where there was none.
pub open spec fn put(es: Seq<(Seq<char>, TagView)>, key: Seq<char>, tag: TagView) -> Seq<
    (Seq<char>, TagView),
> {
    let i = position(es, key);
    if 0 <= i < es.len() {
        es.update(i, (key, tag))
    } else {
        es.push((key, tag))
    }
}

/// The entries as a mapping from key to tag; of two entries under one key
/// the later one counts.
pub open spec fn as_map(es: Seq<(Seq<char>, TagView)>) -> Map<Seq<char>, TagView>
    decreases es.len(),
{
    if es.len() == 0 {
        Map::empty()
    } else {
        as_map(es.drop_last()).insert(es.last().0, es.last().1)
    }
}

/// `position` gives a place inside the entries or their number, no entry
/// before that place is under `key`, and the entry at it is.
pub proof fn lemma_position_first(es: Seq<(Seq<char>, TagView)>, key: Seq<char>)
    ensures
        0 <= position(es, key) <= es.len(),
        forall|k: int| 0 <= k < position(es, key) ==> (#[trigger] es[k]).0 != key,
        position(es, key) < es.len() ==> es[position(es, key)].0 == key,
    decreases es.len(),
{
    if es.len() > 0 && es[0].0 != key {
        let t = es.drop_first();
        lemma_position_first(t, key);
        assert forall|k: int| 0 <= k < position(es, key) implies (#[trigger] es[k]).0 != key by {
            if k > 0 {
                assert(es[k] == t[k - 1]);
            }
        }
    }
}

/// A place that no entry under `key` precedes, and that holds one or is the
/// end, is the one `position` gives.
pub proof fn lemma_position_is(es: Seq<(Seq<char>, TagView)>, key: Seq<char>, i: int)
    requires
        0 <= i <= es.len(),
        forall|k: int| 0 <= k < i ==> (#[trigger] es[k]).0 != key,
        i < es.len() ==> es[i].0 == key,
    ensures
        position(es, key) == i,
{
    lemma_position_first(es, key);
    let j = position(es, key);
    if j < i {
        assert(es[j].0 == key);
    } else if i < j {
        assert(es[i].0 == key);
    }
}

/// Putting a tag under a key keeps the keys distinct.
pub proof fn lemma_put_distinct(es: Seq<(Seq<char>, TagView)>, key: Seq<char>, tag: TagView)
    requires
        distinct_keys(es),
    ensures
        distinct_keys(put(es, key, tag)),
{
    lemma_position_first(es, key);
    let i = position(es, key);
    let after = put(es, key, tag);
    assert forall|a: int, b: int| 0 <= a < b < after.len() implies (#[trigger] after[a]).0 != (
    #[trigger] after[b]).0 by {
        if i < es.len() {
            assert(after[a].0 == es[a].0);
            assert(after[b].0 == es[b].0);
        } else {
            if b == es.len() {
                assert(after[a] == es[a]);
            } else {
                assert(after[a] == es[a]);
                assert(after[b] == es[b]);
            }
        }
    }
}

/// A key is in the mapping exactly where an entry is under it.
pub proof fn lemma_map_domain(es: Seq<(Seq<char>, TagView)>, key: Seq<char>)
    ensures
        as_map(es).contains_key(key) <==> position(es, key) < es.len(),
    decreases es.len(),
{
    lemma_position_first(es, key);
    if es.len() > 0 {
        let front = es.drop_last();
        lemma_map_domain(front, key);
        lemma_position_first(front, key);
        let p = position(front, key);
        if p < front.len() {
            assert(front[p] == es[p]);
            assert forall|k: int| 0 <= k < p implies (#[trigger] es[k]).0 != key by {
                assert(es[k] == front[k]);
            }
            lemma_position_is(es, key, p);
        } else if es.last().0 == key {
            assert forall|k: int| 0 <= k < es.len() - 1 implies (#[trigger] es[k]).0 != key by {
                assert(es[k] == front[k]);
            }
            lemma_position_is(es, key, es.len() - 1);
        } else {
            assert forall|k: int| 0 <= k < es.len() implies (#[trigger] es[k]).0 != key by {
                if k < es.len() - 1 {
                    assert(es[k] == front[k]);
                }
            }
            lemma_position_is(es, key, es.len() as int);
        }
    }
}

/// With distinct keys, the mapping holds under each key the tag of the one
/// entry under it, which is what `lookup` gives.
pub proof fn lemma_lookup_is_map(es: Seq<(Seq<char>, TagView)>, key: Seq<char>)
    requires
        distinct_keys(es),
    ensures
        lookup(es, key) == if as_map(es).contains_key(key) {
            Some(as_map(es)[key])
        } else {
            None
        },
    decreases es.len(),
{
    lemma_map_domain(es, key);
    lemma_position_first(es, key);
    if es.len() > 0 {
        let front = es.drop_last();
        assert forall|i: int, j: int| 0 <= i < j < front.len() implies (#[trigger] front[i]).0 != (
        #[trigger] front[j]).0 by {
            assert(front[i] == es[i] && front[j] == es[j]);
        }
        lemma_lookup_is_map(front, key);
        lemma_map_domain(front, key);
        lemma_position_first(front, key);
        let p = position(front, key);
        if p < front.len() {
            assert(front[p] == es[p]);
            assert forall|k: int| 0 <= k < p implies (#[trigger] es[k]).0 != key by {
                assert(es[k] == front[k]);
            }
            lemma_position_is(es, key, p);
            assert(es[p].0 != es[es.len() - 1].0);
        }
    }
}

/// With distinct keys, putting a tag under a key is inserting it into the
/// mapping.
pub proof fn lemma_put_is_insert(es: Seq<(Seq<char>, TagView)>, key: Seq<char>, tag: TagView)
    requires
        distinct_keys(es),
    ensures
        as_map(put(es, key, tag)) == as_map(es).insert(key, tag),
    decreases es.len(),
{
    lemma_position_first(es, key);
    let i = position(es, key);
    if i >= es.len() {
        assert(es.push((key, tag)).drop_last() =~= es);
    } else {
        let front = es.drop_last();
        let last = es.last();
        assert forall|a: int, b: int| 0 <= a < b < front.len() implies (#[trigger] front[a]).0 != (
        #[trigger] front[b]).0 by {
            assert(front[a] == es[a] && front[b] == es[b]);
        }
        if i == es.len() - 1 {
            assert(es.update(i, (key, tag)).drop_last() =~= front);
            assert(as_map(front).insert(key, last.1).insert(key, tag) =~= as_map(front).insert(
                key,
                tag,
            ));
        } else {
            assert forall|k: int| 0 <= k < i implies (#[trigger] front[k]).0 != key by {
                assert(front[k] == es[k]);
            }
            assert(front[i] == es[i]);
            lemma_position_is(front, key, i);
            lemma_put_is_insert(front, key, tag);
            assert(es.update(i, (key, tag)).drop_last() =~= front.update(i, (key, tag)));
            assert(es[i].0 != es[es.len() - 1].0);
            assert(as_map(front).insert(key, tag).insert(last.0, last.1) =~= as_map(front).insert(
                last.0,
                last.1,
            ).insert(key, tag));
        }
    }
}

/// The optional fields of a record: tags under their keys, no two under one
/// key, in the order in which the keys first came.
#[derive(Debug)]
pub struct OptionalFields {
    entries: Vec<(String, Tag)>,
}

impl View for OptionalFields {
    type V = Map<Seq<char>, TagView>;

    open spec fn view(&self) -> Map<Seq<char>, TagView> {
        as_map(self.entries())
    }
}

impl OptionalFields {
    /// The entries in order, each a key and the tag under it.
    pub closed spec fn entries(&self) -> Seq<(Seq<char>, TagView)> {
        Seq::new(self.entries@.len(), |k: int| (self.entries@[k].0@, self.entries@[k].1@))
    }

    /// No two entries share a key.
    pub open spec fn wf(&self) -> bool {
        distinct_keys(self.entries())
    }

    /// No fields.
    pub fn new() -> (r: OptionalFields)
        ensures
            r.entries() == Seq::<(Seq<char>, TagView)>::empty(),
            r.wf(),
    {
        let r = OptionalFields { entries: Vec::new() };
        proof {
            assert(r.entries() =~= Seq::<(Seq<char>, TagView)>::empty());
        }
        r
    }

    /// The number of fields.
    pub fn len(&self) -> (n: usize)
        ensures
            n == self.entries().len(),
    {
        self.entries.len()
    }

    /// Whether there is no field.
    pub fn is_empty(&self) -> (r: bool)
        ensures
            r == (self.entries().len() == 0),
    {
        self.entries.len() == 0
    }

    /// The place of the entry under `key`, or the number of entries where
    /// there is none.
    fn place(&self, key: &String) -> (i: usize)
        ensures
            i == position(self.entries(), key@),
            i <= self.entries@.len(),
    {
        let mut i: usize = 0;
        while i < self.entries.len() && !(self.entries[i].0 == *key)
            invariant
                i <= self.entries@.len(),
                forall|k: int| 0 <= k < i ==> (#[trigger] self.entries()[k]).0 != key@,
            decreases self.entries@.len() - i,
        {
            i += 1;
        }
        proof {
            lemma_position_is(self.entries(), key@, i as int);
        }
        i
    }

    /// Puts `tag` under `key`: in the place of the tag that was under that
    /// key, or else after all other entries.
    pub fn insert(&mut self, key: String, tag: Tag)
        requires
            old(self).wf(),
        ensures
            final(self).wf(),
            final(self).entries() == put(old(self).entries(), key@, tag@),
            final(self)@ == old(self)@.insert(key@, tag@),
    {
        let i: usize = self.place(&key);
        proof {
            lemma_put_distinct(self.entries(), key@, tag@);
            lemma_put_is_insert(self.entries(), key@, tag@);
        }
        if i < self.entries.len() {
            self.entries.set(i, (key, tag));
        } else {
            self.entries.push((key, tag));
        }
        proof {
            assert(self.entries() =~= put(old(self).entries(), key@, tag@));
        }
    }

    /// The tag under `key`, if there is one.
    pub fn get(&self, key: &str) -> (r: Option<&Tag>)
        ensures
            match r {
                Some(t) => lookup(self.entries(), key@) == Some(t@),
                None => lookup(self.entries(), key@) is None,
            },
            self.wf() ==> match r {
                Some(t) => self@.contains_key(key@) && self@[key@] == t@,
                None => !self@.contains_key(key@),
            },
    {
        let k: String = key.to_owned();
        let i: usize = self.place(&k);
        proof {
            if self.wf() {
                lemma_lookup_is_map(self.entries(), key@);
            }
        }
        if i < self.entries.len() {
            Some(&self.entries[i].1)
        } else {
            None
        }
    }

    /// Whether there is a tag under `key`.
    pub fn contains_key(&self, key: &str) -> (r: bool)
        ensures
            r == (lookup(self.entries(), key@) is Some),
            r == self@.contains_key(key@),
    {
        let k: String = key.to_owned();
        let i: usize = self.place(&k);
        proof {
            lemma_map_domain(self.entries(), key@);
        }
        i < self.entries.len()
    }

    /// The key of the entry at place `i`.
    pub fn key_at(&self, i: usize) -> (r: &String)
        requires
            i < self.entries().len(),
        ensures
            r@ == self.entries()[i as int].0,
    {
        &self.entries[i].0
    }

    /// The tag of the entry at place `i`.
    pub fn tag_at(&self, i: usize) -> (r: &Tag)
        requires
            i < self.entries().len(),
        ensures
            r@ == self.entries()[i as int].1,
    {
        &self.entries[i].1
    }
}

/// A record as plain values: the twelve mandatory fields, and the optional
/// fields as entries in order.
pub struct RecordView {
    pub query_name: Seq<char>,
    pub query_len: u32,
    pub query_start: u32,
    pub query_end: u32,
    pub strand: char,
    pub target_name: Seq<char>,
    pub target_len: u32,
    pub target_start: u32,
    pub target_end: u32,
    pub residue_matches: u32,
    pub alignment_block_len: u32,
    pub mapping_quality: u8,
    pub optional: Seq<(Seq<char>, TagView)>,
}

impl RecordView {
    /// The tag under `name`, if the record has one.
    pub open spec fn field(self, name: Seq<char>) -> Option<TagView> {
        lookup(self.optional, name)
    }

    /// Where the record has a tag under `name`, that tag carries this name
    /// and wraps a payload of type code `code`.
    pub open spec fn suits(self, name: Seq<char>, code: char) -> bool {
        self.field(name) matches Some(t) ==> t.name == name && t.value.code() == code
    }

    /// Each field that has an accessor of its own, where the record has it,
    /// is a tag of that name around a payload of the accessor's type.
    pub open spec fn well_typed(self) -> bool {
        &&& self.suits("tp"@, 'A')
        &&& self.suits("cm"@, 'i')
        &&& self.suits("s1"@, 'i')
        &&& self.suits("s2"@, 'i')
        &&& self.suits("NM"@, 'i')
        &&& self.suits("MD"@, 'Z')
        &&& self.suits("AS"@, 'i')
        &&& self.suits("SA"@, 'Z')
        &&& self.suits("ms"@, 'i')
        &&& self.suits("nn"@, 'i')
        &&& self.suits("ts"@, 'A')
        &&& self.suits("cg"@, 'Z')
        &&& self.suits("cs"@, 'Z')
        &&& self.suits("dv"@, 'f')
        &&& self.suits("de"@, 'f')
        &&& self.suits("rl"@, 'i')
    }

    /// Each real number among the optional fields is held as a text with
    /// exactly four digits after the decimal point.
    pub open spec fn reals_fixed(self) -> bool {
        forall|k: int|
            0 <= k < self.optional.len() ==> ((#[trigger] self.optional[k]).1.value matches Value::Float(
                t,
            ) ==> is_fixed_text(t))
    }

    /// The payload under `name`, if the record has a tag there.
    pub open spec fn payload(self, name: Seq<char>) -> Option<Value> {
        match self.field(name) {
            Some(t) => Some(t.value),
            None => None,
        }
    }
}

/// One alignment between a query and a target sequence.
#[derive(Debug)]
pub struct PafRecord {
    query_name: String,
    query_len: u32,
    query_start: u32,
    query_end: u32,
    strand: char,
    target_name: String,
    target_len: u32,
    target_start: u32,
    target_end: u32,
    residue_matches: u32,
    alignment_block_len: u32,
    mapping_quality: u8,
    optional: OptionalFields,
}

impl View for PafRecord {
    type V = RecordView;

    closed spec fn view(&self) -> RecordView {
        RecordView {
            query_name: self.query_name@,
            query_len: self.query_len,
            query_start: self.query_start,
            query_end: self.query_end,
            strand: self.strand,
            target_name: self.target_name@,
            target_len: self.target_len,
            target_start: self.target_start,
            target_end: self.target_end,
            residue_matches: self.residue_matches,
            alignment_block_len: self.alignment_block_len,
            mapping_quality: self.mapping_quality,
            optional: self.optional.entries(),
        }
    }
}

impl PafRecord {
    /// No two optional fields share a key.
    pub open spec fn wf(&self) -> bool {
        distinct_keys(self@.optional)
    }

    /// A record of the given fields. Nothing is checked: neither the strand
    /// nor the order of the coordinates.
    pub fn new(
        query_name: String,
        query_len: u32,
        query_start: u32,
        query_end: u32,
        strand: char,
        target_name: String,
        target_len: u32,
        target_start: u32,
        target_end: u32,
        residue_matches: u32,
        alignment_block_len: u32,
        mapping_quality: u8,
        optional: OptionalFields,
    ) -> (r: PafRecord)
        ensures
            r@ == (RecordView {
                query_name: query_name@,
                query_len,
                query_start,
                query_end,
                strand,
                target_name: target_name@,
                target_len,
                target_start,
                target_end,
                residue_matches,
                alignment_block_len,
                mapping_quality,
                optional: optional.entries(),
            }),
            r.wf() == optional.wf(),
    {
        PafRecord {
            query_name,
            query_len,
            query_start,
            query_end,
            strand,
            target_name,
            target_len,
            target_start,
            target_end,
            residue_matches,
            alignment_block_len,
            mapping_quality,
            optional,
        }
    }

    /// Name of the query sequence.
    pub fn query_name(&self) -> (r: &str)
        ensures
            r@ == self@.query_name,
    {
        self.query_name.as_str()
    }

    /// Length of the query sequence.
    pub fn query_len(&self) -> (r: u32)
        ensures
            r == self@.query_len,
    {
        self.query_len
    }

    /// Where the alignment starts on the query.
    pub fn query_start(&self) -> (r: u32)
        ensures
            r == self@.query_start,
    {
        self.query_start
    }

    /// Where the alignment ends on the query.
    pub fn query_end(&self) -> (r: u32)
        ensures
            r == self@.query_end,
    {
        self.query_end
    }

    /// Name of the target sequence.
    pub fn target_name(&self) -> (r: &str)
        ensures
            r@ == self@.target_name,
    {
        self.target_name.as_str()
    }

    /// Length of the target sequence.
    pub fn target_len(&self) -> (r: u32)
        ensures
            r == self@.target_len,
    {
        self.target_len
    }

    /// Where the alignment starts on the target.
    pub fn target_start(&self) -> (r: u32)
        ensures
            r == self@.target_start,
    {
        self.target_start
    }

    /// Where the alignment ends on the target.
    pub fn target_end(&self) -> (r: u32)
        ensures
            r == self@.target_end,
    {
        self.target_end
    }

    /// Number of matching residues.
    pub fn residue_matches(&self) -> (r: u32)
        ensures
            r == self@.residue_matches,
    {
        self.residue_matches
    }

    /// Length of the alignment block, gaps included.
    pub fn alignment_block_len(&self) -> (r: u32)
        ensures
            r == self@.alignment_block_len,
    {
        self.alignment_block_len
    }

    /// Mapping quality; 255 stands for a missing one.
    pub fn mapping_quality(&self) -> (r: u8)
        ensures
            r == self@.mapping_quality,
    {
        self.mapping_quality
    }

    /// `+` where query and target lie on the same strand, `-` where they
    /// lie on opposite ones.
    pub fn strand(&self) -> (r: char)
        ensures
            r == self@.strand,
    {
        self.strand
    }

    /// The optional fields.
    pub fn optional_fields(&self) -> (r: &OptionalFields)
        ensures
            r.entries() == self@.optional,
    {
        &self.optional
    }

    /// Type of alignment: `P` for primary, `S` for secondary, `I` or `i` for an inversion. `None` where the record has no
    /// field `tp`.
    pub fn tp(&self) -> (r: Option<&char>)
        requires
            self@.suits("tp"@, 'A'),
        ensures
            match r {
                Some(v) => self@.payload("tp"@) == Some(Value::Char(*v)),
                None => self@.payload("tp"@) is None,
            },
    {
        self.char_under("tp")
    }

    /// Number of minimizers on the chain. `None` where the record has no
    /// field `cm`.
    pub fn cm(&self) -> (r: Option<&i64>)
        requires
            self@.suits("cm"@, 'i'),
        ensures
            match r {
                Some(v) => self@.payload("cm"@) == Some(Value::Int(*v)),
                None => self@.payload("cm"@) is None,
            },
    {
        self.int_under("cm")
    }

    /// Chaining score. `None` where the record has no
    /// field `s1`.
    pub fn s1(&self) -> (r: Option<&i64>)
        requires
            self@.suits("s1"@, 'i'),
        ensures
            match r {
                Some(v) => self@.payload("s1"@) == Some(Value::Int(*v)),
                None => self@.payload("s1"@) is None,
            },
    {
        self.int_under("s1")
    }

    /// Chaining score of the best secondary chain. `None` where the record has no
    /// field `s2`.
    pub fn s2(&self) -> (r: Option<&i64>)
        requires
            self@.suits("s2"@, 'i'),
        ensures
            match r {
                Some(v) => self@.payload("s2"@) == Some(Value::Int(*v)),
                None => self@.payload("s2"@) is None,
            },
    {
        self.int_under("s2")
    }

    /// Total number of mismatches and gaps in the alignment. `None` where the record has no
    /// field `NM`.
    pub fn nm(&self) -> (r: Option<&i64>)
        requires
            self@.suits("NM"@, 'i'),
        ensures
            match r {
                Some(v) => self@.payload("NM"@) == Some(Value::Int(*v)),
                None => self@.payload("NM"@) is None,
            },
    {
        self.int_under("NM")
    }

    /// What it takes to rebuild the reference sequence of the alignment. `None` where the record has no
    /// field `MD`.
    pub fn md(&self) -> (r: Option<&String>)
        requires
            self@.suits("MD"@, 'Z'),
        ensures
            match r {
                Some(v) => self@.payload("MD"@) == Some(Value::Text(v@)),
                None => self@.payload("MD"@) is None,
            },
    {
        self.text_under("MD")
    }

    /// Alignment score from dynamic programming. `None` where the record has no
    /// field `AS`.
    pub fn as_(&self) -> (r: Option<&i64>)
        requires
            self@.suits("AS"@, 'i'),
        ensures
            match r {
                Some(v) => self@.payload("AS"@) == Some(Value::Int(*v)),
                None => self@.payload("AS"@) is None,
            },
    {
        self.int_under("AS")
    }

    /// Other supplementary alignments. `None` where the record has no
    /// field `SA`.
    pub fn sa(&self) -> (r: Option<&String>)
        requires
            self@.suits("SA"@, 'Z'),
        ensures
            match r {
                Some(v) => self@.payload("SA"@) == Some(Value::Text(v@)),
                None => self@.payload("SA"@) is None,
            },
    {
        self.text_under("SA")
    }

    /// Score of the best-scoring segment of the alignment. `None` where the record has no
    /// field `ms`.
    pub fn ms(&self) -> (r: Option<&i64>)
        requires
            self@.suits("ms"@, 'i'),
        ensures
            match r {
                Some(v) => self@.payload("ms"@) == Some(Value::Int(*v)),
                None => self@.payload("ms"@) is None,
            },
    {
        self.int_under("ms")
    }

    /// Number of ambiguous bases in the alignment. `None` where the record has no
    /// field `nn`.
    pub fn nn(&self) -> (r: Option<&i64>)
        requires
            self@.suits("nn"@, 'i'),
        ensures
            match r {
                Some(v) => self@.payload("nn"@) == Some(Value::Int(*v)),
                None => self@.payload("nn"@) is None,
            },
    {
        self.int_under("nn")
    }

    /// Transcript strand. `None` where the record has no
    /// field `ts`.
    pub fn ts(&self) -> (r: Option<&char>)
        requires
            self@.suits("ts"@, 'A'),
        ensures
            match r {
                Some(v) => self@.payload("ts"@) == Some(Value::Char(*v)),
                None => self@.payload("ts"@) is None,
            },
    {
        self.char_under("ts")
    }

    /// CIGAR string. `None` where the record has no
    /// field `cg`.
    pub fn cg(&self) -> (r: Option<&String>)
        requires
            self@.suits("cg"@, 'Z'),
        ensures
            match r {
                Some(v) => self@.payload("cg"@) == Some(Value::Text(v@)),
                None => self@.payload("cg"@) is None,
            },
    {
        self.text_under("cg")
    }

    /// Difference string. `None` where the record has no
    /// field `cs`.
    pub fn cs(&self) -> (r: Option<&String>)
        requires
            self@.suits("cs"@, 'Z'),
        ensures
            match r {
                Some(v) => self@.payload("cs"@) == Some(Value::Text(v@)),
                None => self@.payload("cs"@) is None,
            },
    {
        self.text_under("cs")
    }

    /// Approximate per-base sequence divergence, as its decimal text. `None` where the record has no
    /// field `dv`.
    pub fn dv(&self) -> (r: Option<&String>)
        requires
            self@.suits("dv"@, 'f'),
        ensures
            match r {
                Some(v) => self@.payload("dv"@) == Some(Value::Float(v@)),
                None => self@.payload("dv"@) is None,
            },
    {
        self.float_under("dv")
    }

    /// Gap-compressed per-base sequence divergence, as its decimal text. `None` where the record has no
    /// field `de`.
    pub fn de(&self) -> (r: Option<&String>)
        requires
            self@.suits("de"@, 'f'),
        ensures
            match r {
                Some(v) => self@.payload("de"@) == Some(Value::Float(v@)),
                None => self@.payload("de"@) is None,
            },
    {
        self.float_under("de")
    }

    /// Length of the query regions that hold repetitive seeds. `None` where the record has no
    /// field `rl`.
    pub fn rl(&self) -> (r: Option<&i64>)
        requires
            self@.suits("rl"@, 'i'),
        ensures
            match r {
                Some(v) => self@.payload("rl"@) == Some(Value::Int(*v)),
                None => self@.payload("rl"@) is None,
            },
    {
        self.int_under("rl")
    }

    /// Whether the tag under `key`, where the record has one, carries that
    /// name and wraps a payload of type code `code`.
    fn holds(&self, key: &str, code: char) -> (r: bool)
        ensures
            r == self@.suits(key@, code),
    {
        match self.optional.get(key) {
            Some(tag) => tag.to_string() == key.to_owned() && tag.value().code() == code,
            None => true,
        }
    }

    /// Whether each field that has an accessor of its own, where the record
    /// has it, is a tag of that name around a payload of the accessor's type:
    /// whether every accessor may be called.
    pub fn is_well_typed(&self) -> (r: bool)
        ensures
            r == self@.well_typed(),
    {
        self.holds("tp", 'A')
            && self.holds("cm", 'i')
            && self.holds("s1", 'i')
            && self.holds("s2", 'i')
            && self.holds("NM", 'i')
            && self.holds("MD", 'Z')
            && self.holds("AS", 'i')
            && self.holds("SA", 'Z')
            && self.holds("ms", 'i')
            && self.holds("nn", 'i')
            && self.holds("ts", 'A')
            && self.holds("cg", 'Z')
            && self.holds("cs", 'Z')
            && self.holds("dv", 'f')
            && self.holds("de", 'f')
            && self.holds("rl", 'i')
    }

    /// Whether each real number among the optional fields is held as a text
    /// with exactly four digits after the decimal point: whether the line of
    /// the record has every real number in that form.
    pub fn has_fixed_reals(&self) -> (r: bool)
        ensures
            r == self@.reals_fixed(),
    {
        let mut i: usize = 0;
        while i < self.optional.len()
            invariant
                i <= self.optional.entries().len(),
                forall|k: int|
                    0 <= k < i ==> ((#[trigger] self@.optional[k]).1.value matches Value::Float(t)
                        ==> is_fixed_text(t)),
            decreases self.optional.entries().len() - i,
        {
            match self.optional.tag_at(i).value() {
                Type::Float(t) => {
                    let chars: Vec<char> = chars_of(t.as_str());
                    if !fixed_text(chars.as_slice()) {
                        proof {
                            assert(self@.optional[i as int].1.value == Value::Float(t@));
                        }
                        return false;
                    }
                },
                _ => {},
            }
            i += 1;
        }
        true
    }

    /// The whole number under `key`, if the record has a tag there.
    fn int_under(&self, key: &str) -> (r: Option<&i64>)
        requires
            self@.suits(key@, 'i'),
        ensures
            match r {
                Some(v) => self@.payload(key@) == Some(Value::Int(*v)),
                None => self@.payload(key@) is None,
            },
    {
        match self.optional.get(key) {
            Some(tag) => tag.value().get_int(),
            None => None,
        }
    }

    /// The text of the real number under `key`, if the record has a tag
    /// there.
    fn float_under(&self, key: &str) -> (r: Option<&String>)
        requires
            self@.suits(key@, 'f'),
        ensures
            match r {
                Some(v) => self@.payload(key@) == Some(Value::Float(v@)),
                None => self@.payload(key@) is None,
            },
    {
        match self.optional.get(key) {
            Some(tag) => tag.value().get_float(),
            None => None,
        }
    }

    /// The text under `key`, if the record has a tag there.
    fn text_under(&self, key: &str) -> (r: Option<&String>)
        requires
            self@.suits(key@, 'Z'),
        ensures
            match r {
                Some(v) => self@.payload(key@) == Some(Value::Text(v@)),
                None => self@.payload(key@) is None,
            },
    {
        match self.optional.get(key) {
            Some(tag) => tag.value().get_string(),
            None => None,
        }
    }

    /// The character under `key`, if the record has a tag there.
    fn char_under(&self, key: &str) -> (r: Option<&char>)
        requires
            self@.suits(key@, 'A'),
        ensures
            match r {
                Some(v) => self@.payload(key@) == Some(Value::Char(*v)),
                None => self@.payload(key@) is None,
            },
    {
        match self.optional.get(key) {
            Some(tag) => tag.value().get_char(),
            None => None,
        }
    }
}

} // verus!
