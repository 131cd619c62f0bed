//! The payload of an optional field and the tag that names the field.

use vstd::prelude::*;
use crate::error::{Error, ErrorKind, Failure};
use crate::number::{as_i64, parse_i64};
use crate::realnum::{is_real_text, real_text};
use crate::text::{chars_of, push_chars, text_of};

verus! {

/// The payload of an optional field.
#[derive(Debug)]
pub enum Type {
    /// A whole number; type code `i`.
    Int(i64),
    /// A real number, kept as its decimal text; type code `f`.
    Float(String),
    /// Text; type code `Z`.
    String(String),
    /// One character; type code `A`.
    Char(char),
}

/// A payload with its text as sequences of characters.
pub enum Value {
    Int(i64),
    Float(Seq<char>),
    Text(Seq<char>),
    Char(char),
}

impl View for Type {
    type V = Value;

    open spec fn view(&self) -> Value {
        match self {
            Type::Int(v) => Value::Int(*v),
            Type::Float(t) => Value::Float(t@),
            Type::String(t) => Value::Text(t@),
            Type::Char(c) => Value::Char(*c),
        }
    }
}

impl Value {
    /// A real number holds the text of one. The other payloads are always
    /// well formed.
    pub open spec fn wf(self) -> bool {
        self matches Value::Float(t) ==> is_real_text(t)
    }

    /// The type code under which the payload is written.
    pub open spec fn code(self) -> char {
        match self {
            Value::Int(_) => 'i',
            Value::Float(_) => 'f',
            Value::Text(_) => 'Z',
            Value::Char(_) => 'A',
        }
    }
}

/// The payload that a type code and a raw text stand for. Code `i` asks for
/// a whole number of 64 bits, `f` for the text of a real number, `A` for at
/// least one character, of which the first is kept; `Z` and every other code
/// take the text as it is.
pub open spec fn parse_value(code: Seq<char>, raw: Seq<char>) -> Option<Value> {
    if code == seq!['i'] {
        match as_i64(raw) {
            Some(v) => Some(Value::Int(v)),
            None => None,
        }
    } else if code == seq!['f'] {
        if is_real_text(raw) {
            Some(Value::Float(raw))
        } else {
            None
        }
    } else if code == seq!['A'] {
        if raw.len() > 0 {
            Some(Value::Char(raw[0]))
        } else {
            None
        }
    } else {
        Some(Value::Text(raw))
    }
}

/// The payload of an optional value, if there is one.
pub open spec fn value_of(r: Option<Type>) -> Option<Value> {
    match r {
        Some(t) => Some(t@),
        None => None,
    }
}

impl Type {
    /// The payload that the characters of a type code and of a raw text
    /// stand for.
    pub fn parse_chars(code: &[char], raw: &[char]) -> (r: Option<Type>)
        ensures
            value_of(r) == parse_value(code@, raw@),
    {
        if code.len() == 1 && code[0] == 'i' {
            proof {
                assert(code@ =~= seq!['i']);
            }
            match parse_i64(raw) {
                Some(v) => Some(Type::Int(v)),
                None => None,
            }
        } else if code.len() == 1 && code[0] == 'f' {
            proof {
                assert(code@ =~= seq!['f']);
            }
            if real_text(raw) {
                let t: String = text_of(raw, 0, raw.len());
                proof {
                    assert(raw@.subrange(0, raw@.len() as int) =~= raw@);
                }
                Some(Type::Float(t))
            } else {
                None
            }
        } else if code.len() == 1 && code[0] == 'A' {
            proof {
                assert(code@ =~= seq!['A']);
            }
            if raw.len() > 0 {
                Some(Type::Char(raw[0]))
            } else {
                None
            }
        } else {
            proof {
                if code@ == seq!['i'] || code@ == seq!['f'] || code@ == seq!['A'] {
                    assert(code@.len() == 1);
                    assert(code@[0] == 'i' || code@[0] == 'f' || code@[0] == 'A');
                }
                assert(raw@.subrange(0, raw@.len() as int) =~= raw@);
            }
            Some(Type::String(text_of(raw, 0, raw.len())))
        }
    }

    /// The payload that a type code and a raw text stand for.
    pub fn parse(field_type: &str, value: &str) -> (r: Option<Type>)
        ensures
            value_of(r) == parse_value(field_type@, value@),
    {
        let code: Vec<char> = chars_of(field_type);
        let raw: Vec<char> = chars_of(value);
        Type::parse_chars(code.as_slice(), raw.as_slice())
    }

    /// The type code under which the payload is written.
    pub fn code(&self) -> (c: char)
        ensures
            c == self@.code(),
    {
        match self {
            Type::Int(_) => 'i',
            Type::Float(_) => 'f',
            Type::String(_) => 'Z',
            Type::Char(_) => 'A',
        }
    }

    /// The whole number, where the payload is one.
    pub fn get_int(&self) -> (r: Option<&i64>)
        ensures
            r == match *self {
                Type::Int(v) => Some(&v),
                _ => None,
            },
    {
        match self {
            Type::Int(v) => Some(v),
            _ => None,
        }
    }

    /// The decimal text of the real number, where the payload is one.
    pub fn get_float(&self) -> (r: Option<&String>)
        ensures
            r == match *self {
                Type::Float(t) => Some(&t),
                _ => None,
            },
    {
        match self {
            Type::Float(t) => Some(t),
            _ => None,
        }
    }

    /// The text, where the payload is text.
    pub fn get_string(&self) -> (r: Option<&String>)
        ensures
            r == match *self {
                Type::String(t) => Some(&t),
                _ => None,
            },
    {
        match self {
            Type::String(t) => Some(t),
            _ => None,
        }
    }

    /// The character, where the payload is one.
    pub fn get_char(&self) -> (r: Option<&char>)
        ensures
            r == match *self {
                Type::Char(c) => Some(&c),
                _ => None,
            },
    {
        match self {
            Type::Char(c) => Some(c),
            _ => None,
        }
    }
}

/// An optional field: one of the recognised two-character names, with the
/// payload of the field.
#[derive(Debug)]
#[allow(non_camel_case_types)]
pub enum Tag {
    /// Type of alignment: primary, secondary or inversion.
    tp(Type),
    /// Number of minimizers on the chain.
    cm(Type),
    /// Chaining score.
    s1(Type),
    /// Chaining score of the best secondary chain.
    s2(Type),
    /// Total number of mismatches and gaps in the alignment.
    NM(Type),
    /// What it takes to rebuild the reference sequence of the alignment.
    MD(Type),
    /// Alignment score from dynamic programming.
    AS(Type),
    /// Other supplementary alignments.
    SA(Type),
    /// Score of the best-scoring segment of the alignment.
    ms(Type),
    /// Number of ambiguous bases in the alignment.
    nn(Type),
    /// Transcript strand.
    ts(Type),
    /// CIGAR string.
    cg(Type),
    /// Difference string.
    cs(Type),
    /// Approximate per-base sequence divergence.
    dv(Type),
    /// Gap-compressed per-base sequence divergence.
    de(Type),
    /// Length of the query regions that hold repetitive seeds.
    rl(Type),
    /// Field `zd`.
    zd(Type),
}

/// A tag as its name and the payload it wraps.
pub struct TagView {
    pub name: Seq<char>,
    pub value: Value,
}

/// The name is one of the recognised ones.
pub open spec fn is_tag_name(name: Seq<char>) -> bool {
    ||| name == "tp"@
    ||| name == "cm"@
    ||| name == "s1"@
    ||| name == "s2"@
    ||| name == "NM"@
    ||| name == "MD"@
    ||| name == "AS"@
    ||| name == "SA"@
    ||| name == "ms"@
    ||| name == "nn"@
    ||| name == "ts"@
    ||| name == "cg"@
    ||| name == "cs"@
    ||| name == "dv"@
    ||| name == "de"@
    ||| name == "rl"@
    ||| name == "zd"@
}

/// The text of the failure for a name that is not recognised.
pub open spec fn unknown_tag(name: Seq<char>) -> Failure {
    Failure::ReadRecord("Invalid PAF tag: "@ + name)
}

impl Tag {
    /// The two-character name of the tag, whatever payload it wraps.
    pub open spec fn name(&self) -> Seq<char> {
        match self {
            Tag::tp(_) => "tp"@,
            Tag::cm(_) => "cm"@,
            Tag::s1(_) => "s1"@,
            Tag::s2(_) => "s2"@,
            Tag::NM(_) => "NM"@,
            Tag::MD(_) => "MD"@,
            Tag::AS(_) => "AS"@,
            Tag::SA(_) => "SA"@,
            Tag::ms(_) => "ms"@,
            Tag::nn(_) => "nn"@,
            Tag::ts(_) => "ts"@,
            Tag::cg(_) => "cg"@,
            Tag::cs(_) => "cs"@,
            Tag::dv(_) => "dv"@,
            Tag::de(_) => "de"@,
            Tag::rl(_) => "rl"@,
            Tag::zd(_) => "zd"@,
        }
    }

    /// The payload that the tag wraps.
    pub open spec fn payload(&self) -> Type {
        match self {
            Tag::tp(v) => *v,
            Tag::cm(v) => *v,
            Tag::s1(v) => *v,
            Tag::s2(v) => *v,
            Tag::NM(v) => *v,
            Tag::MD(v) => *v,
            Tag::AS(v) => *v,
            Tag::SA(v) => *v,
            Tag::ms(v) => *v,
            Tag::nn(v) => *v,
            Tag::ts(v) => *v,
            Tag::cg(v) => *v,
            Tag::cs(v) => *v,
            Tag::dv(v) => *v,
            Tag::de(v) => *v,
            Tag::rl(v) => *v,
            Tag::zd(v) => *v,
        }
    }

    /// The tag of the given name around the given payload, where the name is
    /// a recognised one.
    pub open spec fn named(name: Seq<char>, value: Type) -> Option<Tag> {
        if name == "tp"@ {
            Some(Tag::tp(value))
        } else if name == "cm"@ {
            Some(Tag::cm(value))
        } else if name == "s1"@ {
            Some(Tag::s1(value))
        } else if name == "s2"@ {
            Some(Tag::s2(value))
        } else if name == "NM"@ {
            Some(Tag::NM(value))
        } else if name == "MD"@ {
            Some(Tag::MD(value))
        } else if name == "AS"@ {
            Some(Tag::AS(value))
        } else if name == "SA"@ {
            Some(Tag::SA(value))
        } else if name == "ms"@ {
            Some(Tag::ms(value))
        } else if name == "nn"@ {
            Some(Tag::nn(value))
        } else if name == "ts"@ {
            Some(Tag::ts(value))
        } else if name == "cg"@ {
            Some(Tag::cg(value))
        } else if name == "cs"@ {
            Some(Tag::cs(value))
        } else if name == "dv"@ {
            Some(Tag::dv(value))
        } else if name == "de"@ {
            Some(Tag::de(value))
        } else if name == "rl"@ {
            Some(Tag::rl(value))
        } else if name == "zd"@ {
            Some(Tag::zd(value))
        } else {
            None
        }
    }

    /// The tag of the name that the characters spell, around the given
    /// payload; a failure that names them where they spell no recognised name.
    pub fn parse_chars(name: &[char], value: Type) -> (r: Result<Tag, Error>)
        ensures
            match r {
                Ok(t) => Tag::named(name@, value) == Some(t),
                Err(e) => Tag::named(name@, value) is None && e@ == unknown_tag(name@),
            },
    {
        proof {
            reveal_names();
        }
        if name.len() == 2 {
            let a: char = name[0];
            let b: char = name[1];
            proof {
                assert(name@ =~= seq![a, b]);
            }
            if a == 't' && b == 'p' {
                return Ok(Tag::tp(value));
            } else if a == 'c' && b == 'm' {
                return Ok(Tag::cm(value));
            } else if a == 's' && b == '1' {
                return Ok(Tag::s1(value));
            } else if a == 's' && b == '2' {
                return Ok(Tag::s2(value));
            } else if a == 'N' && b == 'M' {
                return Ok(Tag::NM(value));
            } else if a == 'M' && b == 'D' {
                return Ok(Tag::MD(value));
            } else if a == 'A' && b == 'S' {
                return Ok(Tag::AS(value));
            } else if a == 'S' && b == 'A' {
                return Ok(Tag::SA(value));
            } else if a == 'm' && b == 's' {
                return Ok(Tag::ms(value));
            } else if a == 'n' && b == 'n' {
                return Ok(Tag::nn(value));
            } else if a == 't' && b == 's' {
                return Ok(Tag::ts(value));
            } else if a == 'c' && b == 'g' {
                return Ok(Tag::cg(value));
            } else if a == 'c' && b == 's' {
                return Ok(Tag::cs(value));
            } else if a == 'd' && b == 'v' {
                return Ok(Tag::dv(value));
            } else if a == 'd' && b == 'e' {
                return Ok(Tag::de(value));
            } else if a == 'r' && b == 'l' {
                return Ok(Tag::rl(value));
            } else if a == 'z' && b == 'd' {
                return Ok(Tag::zd(value));
            }
        }
        let mut text: String = "Invalid PAF tag: ".to_owned();
        push_chars(&mut text, name, 0, name.len());
        proof {
            assert(name@.subrange(0, name@.len() as int) =~= name@);
        }
        Err(Error::new(ErrorKind::ReadRecord(text)))
    }

    /// The tag of the given name around the given payload; a failure that
    /// names `tag` where it is no recognised name.
    pub fn parse(tag: &str, value: Type) -> (r: Result<Tag, Error>)
        ensures
            match r {
                Ok(t) => Tag::named(tag@, value) == Some(t),
                Err(e) => Tag::named(tag@, value) is None && e@ == unknown_tag(tag@),
            },
    {
        let name: Vec<char> = chars_of(tag);
        Tag::parse_chars(name.as_slice(), value)
    }

    /// The two-character name of the tag.
    pub fn to_string(&self) -> (r: String)
        ensures
            r@ == self.name(),
    {
        match self {
            Tag::tp(_) => "tp".to_owned(),
            Tag::cm(_) => "cm".to_owned(),
            Tag::s1(_) => "s1".to_owned(),
            Tag::s2(_) => "s2".to_owned(),
            Tag::NM(_) => "NM".to_owned(),
            Tag::MD(_) => "MD".to_owned(),
            Tag::AS(_) => "AS".to_owned(),
            Tag::SA(_) => "SA".to_owned(),
            Tag::ms(_) => "ms".to_owned(),
            Tag::nn(_) => "nn".to_owned(),
            Tag::ts(_) => "ts".to_owned(),
            Tag::cg(_) => "cg".to_owned(),
            Tag::cs(_) => "cs".to_owned(),
            Tag::dv(_) => "dv".to_owned(),
            Tag::de(_) => "de".to_owned(),
            Tag::rl(_) => "rl".to_owned(),
            Tag::zd(_) => "zd".to_owned(),
        }
    }

    /// The payload that the tag wraps.
    pub fn value(&self) -> (r: &Type)
        ensures
            *r == self.payload(),
    {
        match self {
            Tag::tp(v) => v,
            Tag::cm(v) => v,
            Tag::s1(v) => v,
            Tag::s2(v) => v,
            Tag::NM(v) => v,
            Tag::MD(v) => v,
            Tag::AS(v) => v,
            Tag::SA(v) => v,
            Tag::ms(v) => v,
            Tag::nn(v) => v,
            Tag::ts(v) => v,
            Tag::cg(v) => v,
            Tag::cs(v) => v,
            Tag::dv(v) => v,
            Tag::de(v) => v,
            Tag::rl(v) => v,
            Tag::zd(v) => v,
        }
    }
}

impl View for Tag {
    type V = TagView;

    open spec fn view(&self) -> TagView {
        TagView { name: self.name(), value: self.payload()@ }
    }
}

/// What each of the recognised names spells.
pub proof fn reveal_names()
    ensures
        "tp"@ == seq!['t', 'p'],
        "cm"@ == seq!['c', 'm'],
        "s1"@ == seq!['s', '1'],
        "s2"@ == seq!['s', '2'],
        "NM"@ == seq!['N', 'M'],
        "MD"@ == seq!['M', 'D'],
        "AS"@ == seq!['A', 'S'],
        "SA"@ == seq!['S', 'A'],
        "ms"@ == seq!['m', 's'],
        "nn"@ == seq!['n', 'n'],
        "ts"@ == seq!['t', 's'],
        "cg"@ == seq!['c', 'g'],
        "cs"@ == seq!['c', 's'],
        "dv"@ == seq!['d', 'v'],
        "de"@ == seq!['d', 'e'],
        "rl"@ == seq!['r', 'l'],
        "zd"@ == seq!['z', 'd'],
{
    reveal_strlit("tp");
    reveal_strlit("cm");
    reveal_strlit("s1");
    reveal_strlit("s2");
    reveal_strlit("NM");
    reveal_strlit("MD");
    reveal_strlit("AS");
    reveal_strlit("SA");
    reveal_strlit("ms");
    reveal_strlit("nn");
    reveal_strlit("ts");
    reveal_strlit("cg");
    reveal_strlit("cs");
    reveal_strlit("dv");
    reveal_strlit("de");
    reveal_strlit("rl");
    reveal_strlit("zd");
    assert("tp"@ =~= seq!['t', 'p']);
    assert("cm"@ =~= seq!['c', 'm']);
    assert("s1"@ =~= seq!['s', '1']);
    assert("s2"@ =~= seq!['s', '2']);
    assert("NM"@ =~= seq!['N', 'M']);
    assert("MD"@ =~= seq!['M', 'D']);
    assert("AS"@ =~= seq!['A', 'S']);
    assert("SA"@ =~= seq!['S', 'A']);
    assert("ms"@ =~= seq!['m', 's']);
    assert("nn"@ =~= seq!['n', 'n']);
    assert("ts"@ =~= seq!['t', 's']);
    assert("cg"@ =~= seq!['c', 'g']);
    assert("cs"@ =~= seq!['c', 's']);
    assert("dv"@ =~= seq!['d', 'v']);
    assert("de"@ =~= seq!['d', 'e']);
    assert("rl"@ =~= seq!['r', 'l']);
    assert("zd"@ =~= seq!['z', 'd']);
}

/// A tag is the one that its own name and payload give, and a name gives a
/// tag exactly where it is a recognised one; the tag then carries that name
/// and the payload it was given.
pub proof fn lemma_name_identifies_tag(t: Tag, name: Seq<char>, value: Type)
    ensures
        Tag::named(t.name(), t.payload()) == Some(t),
        is_tag_name(t.name()),
        Tag::named(name, value) is Some <==> is_tag_name(name),
        Tag::named(name, value) matches Some(u) ==> u.name() == name && u.payload() == value,
{
    reveal_names();
    assert(forall|x: char, y: char, p: char, q: char| #[trigger]
        seq![x, y] == #[trigger] seq![p, q] ==> x == p && y == q) by {
        assert forall|x: char, y: char, p: char, q: char| #[trigger]
            seq![x, y] == #[trigger] seq![p, q] implies x == p && y == q by {
            assert(seq![x, y][0] == x && seq![x, y][1] == y);
            assert(seq![p, q][0] == p && seq![p, q][1] == q);
        }
    }
}

} // verus!
