//! Reading the text of a lexeme as a number: the integer forms that
//! `i32::from_str` takes and the decimal forms that `f64::from_str` takes.
use vstd::prelude::*;

verus! {

pub open spec fn is_digit(c: char) -> bool {
    '0' <= c && c <= '9'
}

pub open spec fn is_sign(c: char) -> bool {
    c == '+' || c == '-'
}

/// One or more decimal digits and nothing else.
pub open spec fn all_digits(s: Seq<char>) -> bool {
    s.len() > 0 && forall|i: int| 0 <= i < s.len() ==> is_digit(#[trigger] s[i])
}

/// The value of a run of decimal digits.
pub open spec fn digits_value(s: Seq<char>) -> int
    decreases s.len(),
{
    if s.len() == 0 {
        0
    } else {
        digits_value(s.drop_last()) * 10 + (s.last() as int - '0' as int)
    }
}

/// The text without its leading sign, if it has one.
pub open spec fn unsigned(s: Seq<char>) -> Seq<char> {
    if s.len() > 0 && is_sign(s[0]) {
        s.drop_first()
    } else {
        s
    }
}

/// The value of the text as a signed decimal integer, when it is one.
pub open spec fn int_text_value(s: Seq<char>) -> Option<int> {
    let body = unsigned(s);
    if !all_digits(body) {
        None
    } else if s[0] == '-' {
        Some(-digits_value(body))
    } else {
        Some(digits_value(body))
    }
}

/// What `i32::from_str` makes of the text: an optional sign, then one or more
/// decimal digits, whose value must fit in an `i32`.
pub open spec fn int_text(s: Seq<char>) -> Option<i32> {
    match int_text_value(s) {
        Some(v) => if i32::MIN <= v && v <= i32::MAX {
            Some(v as i32)
        } else {
            None
        },
        None => None,
    }
}

proof fn lemma_digits_value_grows(t: Seq<char>, m: int)
    requires
        forall|i: int| 0 <= i < t.len() ==> is_digit(#[trigger] t[i]),
        0 <= m <= t.len(),
    ensures
        digits_value(t.take(m)) <= digits_value(t),
        0 <= digits_value(t.take(m)),
    decreases t.len(),
{
    if m == t.len() {
        assert(t.take(m) == t);
        lemma_digits_value_nonneg(t);
    } else {
        let u = t.drop_last();
        assert(u.take(m) == t.take(m));
        lemma_digits_value_grows(u, m);
        lemma_digits_value_nonneg(u);
    }
}

proof fn lemma_digits_value_nonneg(t: Seq<char>)
    requires
        forall|i: int| 0 <= i < t.len() ==> is_digit(#[trigger] t[i]),
    ensures
        0 <= digits_value(t),
    decreases t.len(),
{
    if t.len() > 0 {
        lemma_digits_value_nonneg(t.drop_last());
    }
}

/// Reads an integer lexeme, as `i32::from_str` does.
pub fn read_int(s: &Vec<char>) -> (r: Option<i32>)
    ensures
        r == int_text(s@),
{
    let n = s.len();
    if n == 0 {
        return None;
    }
    let negative = s[0] == '-';
    let start: usize = if s[0] == '-' || s[0] == '+' { 1 } else { 0 };
    let ghost body = unsigned(s@);
    assert(body == s@.skip(start as int));
    if start == n {
        return None;
    }
    let mut acc: i64 = 0;
    let mut k: usize = start;
    while k < n
        invariant
            start <= k <= n,
            body == unsigned(s@),
            body == s@.skip(start as int),
            negative == (s@[0] == '-'),
            n == s@.len(),
            start < n,
            0 <= acc <= 2147483648,
            acc == digits_value(body.take(k - start)),
            forall|i: int| 0 <= i < k - start ==> is_digit(#[trigger] body[i]),
        decreases n - k,
    {
        let c = s[k];
        assert(c == body[k - start]);
        if !('0' <= c && c <= '9') {
            assert(!all_digits(body));
            return None;
        }
        let d = (c as u32 - '0' as u32) as i64;
        let ghost t = body.take(k + 1 - start);
        assert(t.drop_last() == body.take(k - start));
        assert(t.last() == c);
        acc = acc * 10 + d;
        assert(acc == digits_value(t));
        if acc > 2147483648 {
            proof {
                if all_digits(body) {
                    lemma_digits_value_grows(body, k + 1 - start);
                    assert(digits_value(body) > 2147483648);
                }
            }
            return None;
        }
        k = k + 1;
    }
    assert(body.take(n - start) == body);
    if negative {
        Some((0 - acc) as i32)
    } else if acc <= 2147483647 {
        Some(acc as i32)
    } else {
        None
    }
}

pub open spec fn is_exp_mark(c: char) -> bool {
    c == 'e' || c == 'E'
}

/// Digits with at most one decimal point among them, and at least one digit.
pub open spec fn is_mantissa(m: Seq<char>) -> bool {
    &&& forall|i: int| 0 <= i < m.len() ==> is_digit(#[trigger] m[i]) || m[i] == '.'
    &&& exists|i: int| 0 <= i < m.len() && is_digit(#[trigger] m[i])
    &&& forall|i: int, j: int|
        0 <= i < m.len() && 0 <= j < m.len() && #[trigger] m[i] == '.' && #[trigger] m[j] == '.'
            ==> i == j
}

/// An optional sign, then one or more digits.
pub open spec fn is_exponent(x: Seq<char>) -> bool {
    all_digits(unsigned(x))
}

/// A mantissa, optionally followed by an exponent mark and an exponent.
pub open spec fn is_decimal(b: Seq<char>) -> bool {
    is_mantissa(b) || exists|p: int|
        0 <= p < b.len() && is_exp_mark(#[trigger] b[p]) && is_mantissa(b.take(p)) && is_exponent(
            b.skip(p + 1),
        )
}

/// `b` spells a word, each letter in either of its two cases.
pub open spec fn spells(b: Seq<char>, lower: Seq<char>, upper: Seq<char>) -> bool {
    b.len() == lower.len() && forall|i: int|
        0 <= i < b.len() ==> #[trigger] b[i] == lower[i] || b[i] == upper[i]
}

/// Whether `f64::from_str` accepts the text: an optional sign, then `inf`,
/// `infinity` or `nan` in either case, or a decimal number.
pub open spec fn is_real_text(s: Seq<char>) -> bool {
    let b = unsigned(s);
    ||| spells(b, seq!['i', 'n', 'f'], seq!['I', 'N', 'F'])
    ||| spells(
        b,
        seq!['i', 'n', 'f', 'i', 'n', 'i', 't', 'y'],
        seq!['I', 'N', 'F', 'I', 'N', 'I', 'T', 'Y'],
    )
    ||| spells(b, seq!['n', 'a', 'n'], seq!['N', 'A', 'N'])
    ||| is_decimal(b)
}

fn spells_at(s: &Vec<char>, from: usize, lower: &Vec<char>, upper: &Vec<char>) -> (r: bool)
    requires
        from <= s@.len(),
        lower@.len() == upper@.len(),
    ensures
        r == spells(s@.skip(from as int), lower@, upper@),
{
    let ghost b = s@.skip(from as int);
    if s.len() - from != lower.len() {
        return false;
    }
    let mut k: usize = from;
    while k < s.len()
        invariant
            b == s@.skip(from as int),
            b.len() == lower@.len(),
            lower@.len() == upper@.len(),
            from <= k <= s@.len(),
            from + lower@.len() == s@.len(),
            forall|j: int| 0 <= j < k - from ==> #[trigger] b[j] == lower@[j] || b[j] == upper@[j],
        decreases s@.len() - k,
    {
        let c = s[k];
        assert(c == b[k - from]);
        if !(c == lower[k - from] || c == upper[k - from]) {
            return false;
        }
        k = k + 1;
    }
    true
}

fn mantissa_between(s: &Vec<char>, from: usize, to: usize) -> (r: bool)
    requires
        from <= to <= s@.len(),
    ensures
        r == is_mantissa(s@.subrange(from as int, to as int)),
{
    let ghost m = s@.subrange(from as int, to as int);
    let mut seen_digit = false;
    let mut dot_at: Option<usize> = None;
    let mut k: usize = from;
    while k < to
        invariant
            from <= k <= to <= s@.len(),
            m == s@.subrange(from as int, to as int),
            forall|i: int| 0 <= i < k - from ==> is_digit(#[trigger] m[i]) || m[i] == '.',
            seen_digit == exists|i: int| 0 <= i < k - from && is_digit(#[trigger] m[i]),
            dot_at matches Some(d) ==> from <= d < k && m[d - from] == '.',
            forall|i: int| 0 <= i < k - from && #[trigger] m[i] == '.' ==> (dot_at matches Some(d) && i == d - from),
        decreases to - k,
    {
        let c = s[k];
        assert(c == m[k - from]);
        if '0' <= c && c <= '9' {
            seen_digit = true;
        } else if c == '.' {
            if let Some(d) = dot_at {
                assert(m[d - from] == '.' && m[k - from] == '.');
                return false;
            }
            dot_at = Some(k);
        } else {
            assert(!(is_digit(m[k - from]) || m[k - from] == '.'));
            return false;
        }
        k = k + 1;
    }
    seen_digit
}

fn exponent_between(s: &Vec<char>, from: usize, to: usize) -> (r: bool)
    requires
        from <= to <= s@.len(),
    ensures
        r == is_exponent(s@.subrange(from as int, to as int)),
{
    let ghost x = s@.subrange(from as int, to as int);
    let start = if from < to && (s[from] == '+' || s[from] == '-') { from + 1 } else { from };
    let ghost body = unsigned(x);
    assert(body == s@.subrange(start as int, to as int));
    if start == to {
        assert(body.len() == 0);
        return false;
    }
    let mut k: usize = start;
    while k < to
        invariant
            start <= k <= to <= s@.len(),
            body == unsigned(x),
            x == s@.subrange(from as int, to as int),
            body == s@.subrange(start as int, to as int),
            forall|i: int| 0 <= i < k - start ==> is_digit(#[trigger] body[i]),
        decreases to - k,
    {
        let c = s[k];
        assert(c == body[k - start]);
        if !('0' <= c && c <= '9') {
            return false;
        }
        k = k + 1;
    }
    true
}

fn decimal_from(s: &Vec<char>, from: usize) -> (r: bool)
    requires
        from <= s@.len(),
    ensures
        r == is_decimal(s@.skip(from as int)),
{
    let ghost b = s@.skip(from as int);
    let n = s.len();
    let mut p: usize = from;
    while p < n && s[p] != 'e' && s[p] != 'E'
        invariant
            from <= p <= n == s@.len(),
            b == s@.skip(from as int),
            forall|i: int| 0 <= i < p - from ==> !is_exp_mark(#[trigger] b[i]),
        decreases n - p,
    {
        p = p + 1;
    }
    if p == n {
        assert(b == s@.subrange(from as int, n as int));
        let r = mantissa_between(s, from, n);
        assert(!exists|q: int| 0 <= q < b.len() && is_exp_mark(#[trigger] b[q]) && is_mantissa(b.take(q)) && is_exponent(b.skip(q + 1)));
        return r;
    }
    let ghost q = p - from;
    assert(is_exp_mark(b[q]));
    assert(b.take(q) == s@.subrange(from as int, p as int));
    assert(b.skip(q + 1) == s@.subrange(p + 1, n as int));
    assert(!is_mantissa(b));
    let r = mantissa_between(s, from, p) && exponent_between(s, p + 1, n);
    proof {
        if !r {
            assert forall|q2: int|
                0 <= q2 < b.len() && is_exp_mark(#[trigger] b[q2]) && is_mantissa(b.take(q2)) implies q2 == q by {
                if q2 < q {
                    assert(!is_exp_mark(b[q2]));
                } else if q2 > q {
                    assert(b.take(q2)[q] == b[q]);
                }
            }
        }
    }
    r
}

/// Whether `f64::from_str` accepts the text.
pub fn is_real(s: &Vec<char>) -> (r: bool)
    ensures
        r == is_real_text(s@),
{
    let from: usize = if s.len() > 0 && (s[0] == '+' || s[0] == '-') { 1 } else { 0 };
    assert(unsigned(s@) == s@.skip(from as int));
    let inf = vec!['i', 'n', 'f'];
    let inf_up = vec!['I', 'N', 'F'];
    let infinity = vec!['i', 'n', 'f', 'i', 'n', 'i', 't', 'y'];
    let infinity_up = vec!['I', 'N', 'F', 'I', 'N', 'I', 'T', 'Y'];
    let nan = vec!['n', 'a', 'n'];
    let nan_up = vec!['N', 'A', 'N'];
    spells_at(s, from, &inf, &inf_up) || spells_at(s, from, &infinity, &infinity_up) || spells_at(
        s,
        from,
        &nan,
        &nan_up,
    ) || decimal_from(s, from)
}

} // verus!
