//! The text of a real number, as a field of type `f` carries it: a decimal
//! number with an optional fraction and exponent, or one of the words for
//! infinity and not-a-number. The library keeps such a number as its text
//! and decides here whether a text is one.

use vstd::prelude::*;
use crate::number::{all_digits, is_digit};

verus! {

/// Position of the first `e` or `E` in `s`, or `s.len()` where there is none.
pub open spec fn exponent_mark(s: Seq<char>) -> int
    decreases s.len(),
{
    if s.len() == 0 {
        0
    } else if s[0] == 'e' || s[0] == 'E' {
        0
    } else {
        1 + exponent_mark(s.drop_first())
    }
}

/// `s` is `word`, letter by letter, each letter in either case.
pub open spec fn spells_word(s: Seq<char>, lower: Seq<char>, upper: Seq<char>) -> bool {
    &&& s.len() == lower.len()
    &&& forall|k: int| 0 <= k < s.len() ==> (#[trigger] s[k] == lower[k] || s[k] == upper[k])
}

/// One of the words `inf`, `infinity` and `nan`, in any mix of cases.
pub open spec fn is_special(s: Seq<char>) -> bool {
    ||| spells_word(s, seq!['i', 'n', 'f'], seq!['I', 'N', 'F'])
    ||| spells_word(s, seq!['n', 'a', 'n'], seq!['N', 'A', 'N'])
    ||| spells_word(
        s,
        seq!['i', 'n', 'f', 'i', 'n', 'i', 't', 'y'],
        seq!['I', 'N', 'F', 'I', 'N', 'I', 'T', 'Y'],
    )
}

/// Digits, optionally with one point among them: at least one digit in all.
pub open spec fn is_mantissa(s: Seq<char>) -> bool {
    let point = crate::text::find(s, '.');
    let whole = s.take(point);
    let fraction = if point < s.len() {
        s.skip(point + 1)
    } else {
        Seq::empty()
    };
    all_digits(whole) && all_digits(fraction) && whole.len() + fraction.len() > 0
}

/// What may follow the exponent mark: an optional sign, then one digit or more.
pub open spec fn is_exponent(s: Seq<char>) -> bool {
    let digits = if s.len() > 0 && (s[0] == '+' || s[0] == '-') {
        s.drop_first()
    } else {
        s
    };
    digits.len() > 0 && all_digits(digits)
}

/// A mantissa, optionally followed by an exponent mark and an exponent.
pub open spec fn is_number(s: Seq<char>) -> bool {
    let mark = exponent_mark(s);
    is_mantissa(s.take(mark)) && (mark < s.len() ==> is_exponent(s.skip(mark + 1)))
}

/// The text of a real number: an optional sign, then a number or one of the
/// special words.
pub open spec fn is_real_text(s: Seq<char>) -> bool {
    let body = if s.len() > 0 && (s[0] == '+' || s[0] == '-') {
        s.drop_first()
    } else {
        s
    };
    is_number(body) || is_special(body)
}

/// Digits, a point and four digits: at least one digit before the point.
pub open spec fn is_fixed_number(s: Seq<char>) -> bool {
    &&& s.len() >= 6
    &&& all_digits(s.take(s.len() - 5))
    &&& s[s.len() - 5] == '.'
    &&& all_digits(s.skip(s.len() - 4))
}

/// The text of a real number with exactly four digits after the decimal
/// point: an optional minus sign, one digit or more, a point and four
/// digits. A number that is not finite has no such text; for it the words
/// `inf`, `-inf` and `NaN` count.
pub open spec fn is_fixed_text(s: Seq<char>) -> bool {
    let body = if s.len() > 0 && s[0] == '-' {
        s.drop_first()
    } else {
        s
    };
    ||| is_fixed_number(body)
    ||| body == seq!['i', 'n', 'f']
    ||| s == seq!['N', 'a', 'N']
}

/// A text with four digits after the decimal point is the text of a real
/// number.
pub proof fn lemma_fixed_is_real(s: Seq<char>)
    requires
        is_fixed_text(s),
    ensures
        is_real_text(s),
{
    let body = if s.len() > 0 && s[0] == '-' {
        s.drop_first()
    } else {
        s
    };
    if is_fixed_number(body) {
        let n = body.len() as int;
        let whole = body.take(n - 5);
        let fraction = body.skip(n - 4);
        assert forall|k: int| 0 <= k < n implies body[k] != 'e' && body[k] != 'E' by {
            if k < n - 5 {
                assert(is_digit(whole[k]));
            } else if k > n - 5 {
                assert(is_digit(fraction[k - (n - 4)]));
            }
        }
        lemma_exponent_mark_is(body, n);
        assert(body.take(n) =~= body);
        assert forall|k: int| 0 <= k < n - 5 implies body[k] != '.' by {
            assert(is_digit(whole[k]));
        }
        crate::text::lemma_find_is(body, '.', n - 5);
        assert(is_number(body));
        if s.len() > 0 && s[0] == '+' {
            assert(is_digit(whole[0]));
        }
    } else if body == seq!['i', 'n', 'f'] {
        assert(spells_word(body, seq!['i', 'n', 'f'], seq!['I', 'N', 'F']));
        assert(s[0] == '-' || s[0] == 'i');
    } else {
        assert(spells_word(s, seq!['n', 'a', 'n'], seq!['N', 'A', 'N']));
        assert(s[0] == 'N');
    }
}

/// A position that no exponent mark precedes, and that holds one or is the
/// end, is the one `exponent_mark` gives.
pub proof fn lemma_exponent_mark_is(s: Seq<char>, i: int)
    requires
        0 <= i <= s.len(),
        forall|k: int| 0 <= k < i ==> s[k] != 'e' && s[k] != 'E',
        i < s.len() ==> s[i] == 'e' || s[i] == 'E',
    ensures
        exponent_mark(s) == i,
    decreases i,
{
    if i > 0 {
        let t = s.drop_first();
        assert forall|k: int| 0 <= k < i - 1 implies t[k] != 'e' && t[k] != 'E' by {
            assert(t[k] == s[k + 1]);
        }
        lemma_exponent_mark_is(t, i - 1);
    }
}

/// Whether the characters of `s` between `from` and `to` are all digits.
fn digits_only(s: &[char], from: usize, to: usize) -> (r: bool)
    requires
        from <= to <= s.len(),
    ensures
        r == all_digits(s@.subrange(from as int, to as int)),
{
    let mut i: usize = from;
    while i < to
        invariant
            from <= i <= to <= s.len(),
            forall|k: int| from <= k < i ==> is_digit(s@[k]),
        decreases to - i,
    {
        if s[i] < '0' || s[i] > '9' {
            proof {
                assert(s@.subrange(from as int, to as int)[i - from] == s@[i as int]);
            }
            return false;
        }
        i += 1;
    }
    true
}

/// Whether the characters of `s` from `from` on spell one of the special words.
fn special_word(s: &[char], from: usize) -> (r: bool)
    requires
        from <= s.len(),
    ensures
        r == is_special(s@.skip(from as int)),
{
    let ghost body = s@.skip(from as int);
    let n: usize = s.len() - from;
    if n == 3 {
        let a: char = s[from];
        let b: char = s[from + 1];
        let c: char = s[from + 2];
        proof {
            assert(body[0] == a && body[1] == b && body[2] == c);
        }
        ((a == 'i' || a == 'I') && (b == 'n' || b == 'N') && (c == 'f' || c == 'F')) || ((a == 'n'
            || a == 'N') && (b == 'a' || b == 'A') && (c == 'n' || c == 'N'))
    } else if n == 8 {
        let a: char = s[from];
        let b: char = s[from + 1];
        let c: char = s[from + 2];
        let d: char = s[from + 3];
        let e: char = s[from + 4];
        let f: char = s[from + 5];
        let g: char = s[from + 6];
        let h: char = s[from + 7];
        proof {
            assert(body[0] == a && body[1] == b && body[2] == c && body[3] == d);
            assert(body[4] == e && body[5] == f && body[6] == g && body[7] == h);
        }
        (a == 'i' || a == 'I') && (b == 'n' || b == 'N') && (c == 'f' || c == 'F') && (d == 'i'
            || d == 'I') && (e == 'n' || e == 'N') && (f == 'i' || f == 'I') && (g == 't' || g
            == 'T') && (h == 'y' || h == 'Y')
    } else {
        false
    }
}

/// Whether the characters of `s` from `from` on are a number.
fn number_text(s: &[char], from: usize) -> (r: bool)
    requires
        from <= s.len(),
    ensures
        r == is_number(s@.skip(from as int)),
{
    let ghost body = s@.skip(from as int);
    let mut mark: usize = from;
    while mark < s.len() && s[mark] != 'e' && s[mark] != 'E'
        invariant
            from <= mark <= s.len(),
            forall|k: int| from <= k < mark ==> s@[k] != 'e' && s@[k] != 'E',
        decreases s.len() - mark,
    {
        mark += 1;
    }
    let point: usize = crate::text::find_in(s, from, mark, '.');
    let whole: bool = digits_only(s, from, point);
    let fraction_from: usize = if point < mark {
        point + 1
    } else {
        mark
    };
    let fraction: bool = digits_only(s, fraction_from, mark);
    let mantissa: bool = whole && fraction && (point - from) + (mark - fraction_from) > 0;
    proof {
        lemma_exponent_mark_is(body, mark - from);
        let m = body.take(mark - from);
        assert(m =~= s@.subrange(from as int, mark as int));
        assert(m.take(point - from) =~= s@.subrange(from as int, point as int));
        if point < mark {
            assert(m.skip(point - from + 1) =~= s@.subrange(fraction_from as int, mark as int));
        } else {
            assert(s@.subrange(fraction_from as int, mark as int) =~= Seq::<char>::empty());
        }
        assert(mantissa == is_mantissa(m));
    }
    if !mantissa {
        return false;
    }
    if mark == s.len() {
        return true;
    }
    let digits_from: usize = if mark + 1 < s.len() && (s[mark + 1] == '+' || s[mark + 1] == '-') {
        mark + 2
    } else {
        mark + 1
    };
    let digits: bool = digits_only(s, digits_from, s.len());
    proof {
        let x = body.skip(mark - from + 1);
        assert(x =~= s@.subrange(mark + 1, s@.len() as int));
        if digits_from == mark + 2 {
            assert(x[0] == s@[mark + 1]);
            assert(x.drop_first() =~= s@.subrange(digits_from as int, s@.len() as int));
        } else {
            if x.len() > 0 {
                assert(x[0] == s@[mark + 1]);
            }
        }
    }
    digits && digits_from < s.len()
}

/// Whether `s` is the text of a real number.
pub fn real_text(s: &[char]) -> (r: bool)
    ensures
        r == is_real_text(s@),
{
    let from: usize = if s.len() > 0 && (s[0] == '+' || s[0] == '-') {
        1
    } else {
        0
    };
    proof {
        assert(s@.skip(1) =~= s@.drop_first());
        assert(s@.skip(0) =~= s@);
    }
    number_text(s, from) || special_word(s, from)
}

/// Whether `s` is the text of a real number with exactly four digits after
/// the decimal point.
pub fn fixed_text(s: &[char]) -> (r: bool)
    ensures
        r == is_fixed_text(s@),
{
    let from: usize = if s.len() > 0 && s[0] == '-' {
        1
    } else {
        0
    };
    let n: usize = s.len();
    let ghost body = s@.skip(from as int);
    proof {
        assert(s@.skip(1) =~= s@.drop_first());
        assert(s@.skip(0) =~= s@);
    }
    let number: bool = n - from >= 6 && s[n - 5] == '.' && digits_only(s, from, n - 5)
        && digits_only(s, n - 4, n);
    proof {
        if n - from >= 6 {
            assert(body.take(body.len() - 5) =~= s@.subrange(from as int, n - 5));
            assert(body.skip(body.len() - 4) =~= s@.subrange(n - 4, n as int));
            assert(body[body.len() - 5] == s@[n - 5]);
        }
        assert(number == is_fixed_number(body));
    }
    let inf: bool = n - from == 3 && s[from] == 'i' && s[from + 1] == 'n' && s[from + 2] == 'f';
    proof {
        if n - from == 3 {
            assert(body[0] == s@[from as int] && body[1] == s@[from + 1] && body[2] == s@[from
                + 2]);
        }
        if inf {
            assert(body =~= seq!['i', 'n', 'f']);
        }
        if body == seq!['i', 'n', 'f'] {
            assert(body.len() == 3);
            assert(seq!['i', 'n', 'f'][0] == 'i' && seq!['i', 'n', 'f'][1] == 'n' && seq![
                'i',
                'n',
                'f',
            ][2] == 'f');
        }
    }
    let nan: bool = n == 3 && s[0] == 'N' && s[1] == 'a' && s[2] == 'N';
    proof {
        if nan {
            assert(s@ =~= seq!['N', 'a', 'N']);
        }
        if s@ == seq!['N', 'a', 'N'] {
            assert(s@.len() == 3);
            assert(seq!['N', 'a', 'N'][0] == 'N' && seq!['N', 'a', 'N'][1] == 'a' && seq![
                'N',
                'a',
                'N',
            ][2] == 'N');
        }
    }
    number || inf || nan
}

} // verus!
