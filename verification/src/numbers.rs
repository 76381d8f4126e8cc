//! Recognisers for the number syntaxes that the readers accept: decimal
//! floating-point literals (the grammar of `f32::from_str`) and unsigned
//! decimal integers (the grammar of `u32::from_str` and `usize::from_str`).
use vstd::prelude::*;

verus! {

pub open spec fn is_digit(c: char) -> bool {
    '0' <= c && c <= '9'
}

pub open spec fn all_digits(s: Seq<char>) -> bool {
    forall|i: int| 0 <= i < s.len() ==> is_digit(#[trigger] s[i])
}

pub open spec fn is_sign(c: char) -> bool {
    c == '+' || c == '-'
}

/// Index of the first occurrence of `a` or `b`, or the length when neither occurs.
pub open spec fn pos_of(s: Seq<char>, a: char, b: char) -> nat
    decreases s.len(),
{
    if s.len() == 0 || s[0] == a || s[0] == b {
        0
    } else {
        1 + pos_of(s.drop_first(), a, b)
    }
}

/// `Digit+ | Digit+ '.' Digit* | Digit* '.' Digit+`
pub open spec fn is_mantissa(m: Seq<char>) -> bool {
    let d = pos_of(m, '.', '.') as int;
    if d >= m.len() {
        m.len() >= 1 && all_digits(m)
    } else {
        m.len() >= 2 && all_digits(m.take(d)) && all_digits(m.skip(d + 1))
    }
}

/// What follows the exponent marker: `Sign? Digit+`
pub open spec fn is_exponent(e: Seq<char>) -> bool {
    let body = if e.len() > 0 && is_sign(e[0]) {
        e.drop_first()
    } else {
        e
    };
    body.len() >= 1 && all_digits(body)
}

/// `Number ::= ( Digit+ | Digit+ '.' Digit* | Digit* '.' Digit+ ) Exp?`,
/// with `Exp ::= ('e' | 'E') Sign? Digit+`.
pub open spec fn is_number(s: Seq<char>) -> bool {
    let k = pos_of(s, 'e', 'E') as int;
    is_mantissa(s.take(k)) && (k >= s.len() || is_exponent(s.skip(k + 1)))
}

/// Case-insensitive match of a word against a letter sequence given in
/// lower and in upper case.
pub open spec fn ci_eq(s: Seq<char>, lower: Seq<char>, upper: Seq<char>) -> bool {
    &&& s.len() == lower.len()
    &&& s.len() == upper.len()
    &&& forall|i: int| 0 <= i < s.len() ==> #[trigger] s[i] == lower[i] || s[i] == upper[i]
}

pub open spec fn is_special_float(s: Seq<char>) -> bool {
    ||| ci_eq(s, seq!['i', 'n', 'f'], seq!['I', 'N', 'F'])
    ||| ci_eq(
        s,
        seq!['i', 'n', 'f', 'i', 'n', 'i', 't', 'y'],
        seq!['I', 'N', 'F', 'I', 'N', 'I', 'T', 'Y'],
    )
    ||| ci_eq(s, seq!['n', 'a', 'n'], seq!['N', 'A', 'N'])
}

/// The strings that `f32::from_str` accepts:
/// `Sign? ( 'inf' | 'infinity' | 'nan' | Number )`, letters in any case.
pub open spec fn is_float_literal(s: Seq<char>) -> bool {
    let body = if s.len() > 0 && is_sign(s[0]) {
        s.drop_first()
    } else {
        s
    };
    is_special_float(body) || is_number(body)
}

pub proof fn lemma_pos_of_bound(s: Seq<char>, a: char, b: char)
    ensures
        pos_of(s, a, b) <= s.len(),
    decreases s.len(),
{
    if s.len() > 0 && s[0] != a && s[0] != b {
        lemma_pos_of_bound(s.drop_first(), a, b);
    }
}

pub proof fn lemma_pos_of_at(s: Seq<char>, a: char, b: char, i: int, j: int)
    requires
        0 <= i <= j <= s.len(),
        forall|k: int| i <= k < j ==> #[trigger] s[k] != a && s[k] != b,
        j == s.len() || s[j] == a || s[j] == b,
    ensures
        pos_of(s.skip(i), a, b) == j - i,
    decreases j - i,
{
    if i < j {
        lemma_pos_of_at(s, a, b, i + 1, j);
        assert(s.skip(i).drop_first() =~= s.skip(i + 1));
    }
}

fn digit(c: char) -> (r: bool)
    ensures
        r == is_digit(c),
{
    '0' <= c && c <= '9'
}

/// Whether `s[lo..hi]` holds only digits.
fn digits_between(s: &Vec<char>, lo: usize, hi: usize) -> (r: bool)
    requires
        lo <= hi <= s.len(),
    ensures
        r == all_digits(s@.subrange(lo as int, hi as int)),
{
    let mut i = lo;
    while i < hi
        invariant
            lo <= i <= hi <= s.len(),
            forall|k: int| lo <= k < i ==> is_digit(#[trigger] s@[k]),
        decreases hi - i,
    {
        if !digit(s[i]) {
            assert(!is_digit(s@.subrange(lo as int, hi as int)[i - lo]));
            return false;
        }
        i += 1;
    }
    assert forall|k: int| 0 <= k < hi - lo implies is_digit(
        #[trigger] s@.subrange(lo as int, hi as int)[k],
    ) by {
        assert(s@.subrange(lo as int, hi as int)[k] == s@[lo + k]);
    }
    true
}

/// First index in `lo..hi` holding `a` or `b`, or `hi`.
fn find_between(s: &Vec<char>, lo: usize, hi: usize, a: char, b: char) -> (r: usize)
    requires
        lo <= hi <= s.len(),
    ensures
        r == lo + pos_of(s@.subrange(lo as int, hi as int), a, b),
        lo <= r <= hi,
{
    let mut i = lo;
    while i < hi && s[i] != a && s[i] != b
        invariant
            lo <= i <= hi <= s.len(),
            forall|k: int| lo <= k < i ==> #[trigger] s@[k] != a && s@[k] != b,
        decreases hi - i,
    {
        i += 1;
    }
    proof {
        let t = s@.subrange(lo as int, hi as int);
        lemma_pos_of_at(t, a, b, 0, (i - lo) as int);
        assert(t.skip(0) =~= t);
    }
    i
}

fn mantissa_between(s: &Vec<char>, lo: usize, hi: usize) -> (r: bool)
    requires
        lo <= hi <= s.len(),
    ensures
        r == is_mantissa(s@.subrange(lo as int, hi as int)),
{
    let m = Ghost(s@.subrange(lo as int, hi as int));
    let d = find_between(s, lo, hi, '.', '.');
    if d >= hi {
        hi - lo >= 1 && digits_between(s, lo, hi)
    } else {
        proof {
            assert(m@.take(d - lo) =~= s@.subrange(lo as int, d as int));
            assert(m@.skip(d - lo + 1) =~= s@.subrange(d + 1, hi as int));
        }
        hi - lo >= 2 && digits_between(s, lo, d) && digits_between(s, d + 1, hi)
    }
}

fn exponent_between(s: &Vec<char>, lo: usize, hi: usize) -> (r: bool)
    requires
        lo <= hi <= s.len(),
    ensures
        r == is_exponent(s@.subrange(lo as int, hi as int)),
{
    let e = Ghost(s@.subrange(lo as int, hi as int));
    let mut start = lo;
    if lo < hi && (s[lo] == '+' || s[lo] == '-') {
        start = lo + 1;
        assert(e@.drop_first() =~= s@.subrange(start as int, hi as int));
    } else {
        assert(e@ =~= s@.subrange(start as int, hi as int));
    }
    hi - start >= 1 && digits_between(s, start, hi)
}

fn number_between(s: &Vec<char>, lo: usize, hi: usize) -> (r: bool)
    requires
        lo <= hi <= s.len(),
    ensures
        r == is_number(s@.subrange(lo as int, hi as int)),
{
    let t = Ghost(s@.subrange(lo as int, hi as int));
    let k = find_between(s, lo, hi, 'e', 'E');
    proof {
        assert(t@.take(k - lo) =~= s@.subrange(lo as int, k as int));
    }
    if !mantissa_between(s, lo, k) {
        return false;
    }
    if k >= hi {
        return true;
    }
    proof {
        assert(t@.skip(k - lo + 1) =~= s@.subrange(k + 1, hi as int));
    }
    exponent_between(s, k + 1, hi)
}

fn ci_between(s: &Vec<char>, lo: usize, hi: usize, lower: &[char], upper: &[char]) -> (r: bool)
    requires
        lo <= hi <= s.len(),
    ensures
        r == ci_eq(s@.subrange(lo as int, hi as int), lower@, upper@),
{
    let t = Ghost(s@.subrange(lo as int, hi as int));
    if hi - lo != lower.len() || hi - lo != upper.len() {
        return false;
    }
    let mut i: usize = 0;
    while i < lower.len()
        invariant
            hi - lo == lower@.len(),
            hi - lo == upper@.len(),
            lo <= hi <= s.len(),
            i <= lower@.len(),
            t@ == s@.subrange(lo as int, hi as int),
            forall|k: int| 0 <= k < i ==> #[trigger] t@[k] == lower@[k] || t@[k] == upper@[k],
        decreases lower.len() - i,
    {
        let c = s[lo + i];
        assert(t@[i as int] == c);
        if !(c == lower[i] || c == upper[i]) {
            return false;
        }
        i += 1;
    }
    true
}

/// Whether a word is a floating-point literal that `f32::from_str` accepts.
pub fn float_literal(s: &Vec<char>) -> (r: bool)
    ensures
        r == is_float_literal(s@),
{
    let n = s.len();
    let mut lo: usize = 0;
    if n > 0 && (s[0] == '+' || s[0] == '-') {
        lo = 1;
        assert(s@.drop_first() =~= s@.subrange(1, n as int));
    } else {
        assert(s@ =~= s@.subrange(0, n as int));
    }
    let inf = ['i', 'n', 'f'];
    let inf_u = ['I', 'N', 'F'];
    let infinity = ['i', 'n', 'f', 'i', 'n', 'i', 't', 'y'];
    let infinity_u = ['I', 'N', 'F', 'I', 'N', 'I', 'T', 'Y'];
    let nan = ['n', 'a', 'n'];
    let nan_u = ['N', 'A', 'N'];
    assert(inf@ =~= seq!['i', 'n', 'f']);
    assert(inf_u@ =~= seq!['I', 'N', 'F']);
    assert(infinity@ =~= seq!['i', 'n', 'f', 'i', 'n', 'i', 't', 'y']);
    assert(infinity_u@ =~= seq!['I', 'N', 'F', 'I', 'N', 'I', 'T', 'Y']);
    assert(nan@ =~= seq!['n', 'a', 'n']);
    assert(nan_u@ =~= seq!['N', 'A', 'N']);
    ci_between(s, lo, n, &inf, &inf_u) || ci_between(s, lo, n, &infinity, &infinity_u)
        || ci_between(s, lo, n, &nan, &nan_u) || number_between(s, lo, n)
}

/// The empty sign, `+` or `-`.
pub open spec fn optional_sign(s: Seq<char>) -> bool {
    s == Seq::<char>::empty() || s == seq!['+'] || s == seq!['-']
}

/// The digits before and after a decimal point, the point being written
/// when `point` holds.
pub open spec fn decimal_text(whole: Seq<char>, point: bool, frac: Seq<char>) -> Seq<char> {
    if point {
        whole + seq!['.'] + frac
    } else {
        whole
    }
}

proof fn lemma_pos_of_facts(s: Seq<char>, a: char, b: char)
    ensures
        pos_of(s, a, b) <= s.len(),
        forall|i: int| 0 <= i < pos_of(s, a, b) ==> s[i] != a && s[i] != b,
        pos_of(s, a, b) < s.len() ==> s[pos_of(s, a, b) as int] == a || s[pos_of(s, a, b) as int] == b,
    decreases s.len(),
{
    if s.len() > 0 && s[0] != a && s[0] != b {
        let t = s.drop_first();
        lemma_pos_of_facts(t, a, b);
        assert forall|i: int| 0 <= i < pos_of(s, a, b) implies s[i] != a && s[i] != b by {
            if i > 0 {
                assert(s[i] == t[i - 1]);
            }
        }
    }
}

/// The position of the first `a` or `b` in a sequence that has none before
/// `j` and one at `j` (or ends there).
proof fn lemma_pos_of_is(s: Seq<char>, a: char, b: char, j: int)
    requires
        0 <= j <= s.len(),
        forall|k: int| 0 <= k < j ==> #[trigger] s[k] != a && s[k] != b,
        j == s.len() || s[j] == a || s[j] == b,
    ensures
        pos_of(s, a, b) == j,
{
    lemma_pos_of_at(s, a, b, 0, j);
    assert(s.skip(0) =~= s);
}

/// Digits with at most one point among them, and a digit somewhere, make a
/// mantissa.
proof fn lemma_decimal_is_mantissa(whole: Seq<char>, point: bool, frac: Seq<char>)
    requires
        all_digits(whole),
        all_digits(frac),
        point || frac.len() == 0,
        whole.len() + frac.len() >= 1,
    ensures
        is_mantissa(decimal_text(whole, point, frac)),
        forall|i: int|
            0 <= i < decimal_text(whole, point, frac).len() ==> is_digit(
                #[trigger] decimal_text(whole, point, frac)[i],
            ) || decimal_text(whole, point, frac)[i] == '.',
{
    let m = decimal_text(whole, point, frac);
    if point {
        assert forall|k: int| 0 <= k < whole.len() implies #[trigger] m[k] != '.' && m[k] != '.' by {
            assert(m[k] == whole[k]);
        }
        assert(m[whole.len() as int] == '.');
        lemma_pos_of_is(m, '.', '.', whole.len() as int);
        assert(m.take(whole.len() as int) =~= whole);
        assert(m.skip(whole.len() as int + 1) =~= frac);
        assert forall|i: int| 0 <= i < m.len() implies is_digit(#[trigger] m[i]) || m[i] == '.' by {
            if i < whole.len() {
                assert(m[i] == whole[i]);
            } else if i > whole.len() {
                assert(m[i] == frac[i - whole.len() - 1]);
            }
        }
    } else {
        assert(m == whole);
        assert forall|k: int| 0 <= k < m.len() implies #[trigger] m[k] != '.' && m[k] != '.' by {
            assert(is_digit(m[k]));
        }
        lemma_pos_of_is(m, '.', '.', m.len() as int);
    }
}

/// A sign, then a body: the literal's body is what follows the sign.
proof fn lemma_signed(sign: Seq<char>, body: Seq<char>)
    requires
        optional_sign(sign),
        body.len() >= 1,
        !is_sign(body[0]),
    ensures
        ({
            let s = sign + body;
            (if s.len() > 0 && is_sign(s[0]) {
                s.drop_first()
            } else {
                s
            }) == body
        }),
{
    let s = sign + body;
    if sign.len() == 0 {
        assert(s =~= body);
    } else {
        assert(s.drop_first() =~= body);
    }
}

/// An optional sign, then digits with at most one decimal point and at
/// least one digit, is a literal: `7`, `-12.5`, `+.5` and `3.` all are,
/// whatever the number of digits on either side of the point.
pub proof fn law_decimal_literals(sign: Seq<char>, whole: Seq<char>, point: bool, frac: Seq<char>)
    requires
        optional_sign(sign),
        all_digits(whole),
        all_digits(frac),
        point || frac.len() == 0,
        whole.len() + frac.len() >= 1,
    ensures
        is_float_literal(sign + decimal_text(whole, point, frac)),
{
    let m = decimal_text(whole, point, frac);
    lemma_decimal_is_mantissa(whole, point, frac);
    assert(m.len() >= 1);
    assert(!is_sign(m[0]));
    lemma_signed(sign, m);
    assert forall|k: int| 0 <= k < m.len() implies #[trigger] m[k] != 'e' && m[k] != 'E' by {
        assert(is_digit(m[k]) || m[k] == '.');
    }
    lemma_pos_of_is(m, 'e', 'E', m.len() as int);
    assert(m.take(m.len() as int) =~= m);
}

proof fn lemma_signed_digits_exponent(exp_sign: Seq<char>, exp_digits: Seq<char>)
    requires
        optional_sign(exp_sign),
        exp_digits.len() >= 1,
        all_digits(exp_digits),
    ensures
        is_exponent(exp_sign + exp_digits),
{
    let e = exp_sign + exp_digits;
    if exp_sign.len() == 0 {
        assert(e =~= exp_digits);
        assert(!is_sign(exp_digits[0])) by {
            assert(is_digit(exp_digits[0]));
        }
    } else {
        assert(e.drop_first() =~= exp_digits);
    }
}

proof fn lemma_number_with_exponent(m: Seq<char>, marker: char, e: Seq<char>)
    requires
        is_mantissa(m),
        forall|i: int| 0 <= i < m.len() ==> is_digit(#[trigger] m[i]) || m[i] == '.',
        marker == 'e' || marker == 'E',
        is_exponent(e),
    ensures
        is_number(m + seq![marker] + e),
{
    let body = m + seq![marker] + e;
    assert forall|k: int| 0 <= k < m.len() implies #[trigger] body[k] != 'e' && body[k] != 'E' by {
        assert(body[k] == m[k]);
        assert(is_digit(m[k]) || m[k] == '.');
    }
    assert(body[m.len() as int] == marker);
    lemma_pos_of_is(body, 'e', 'E', m.len() as int);
    assert(body.take(m.len() as int) =~= m);
    assert(body.skip(m.len() as int + 1) =~= e);
}

/// Such a decimal followed by an exponent, `e` or `E`, an optional sign and
/// at least one digit, is a literal too: `1e5`, `-2.5E-3`.
pub proof fn law_exponent_literals(
    sign: Seq<char>,
    whole: Seq<char>,
    point: bool,
    frac: Seq<char>,
    marker: char,
    exp_sign: Seq<char>,
    exp_digits: Seq<char>,
)
    requires
        optional_sign(sign),
        all_digits(whole),
        all_digits(frac),
        point || frac.len() == 0,
        whole.len() + frac.len() >= 1,
        marker == 'e' || marker == 'E',
        optional_sign(exp_sign),
        exp_digits.len() >= 1,
        all_digits(exp_digits),
    ensures
        is_float_literal(
            sign + decimal_text(whole, point, frac) + seq![marker] + exp_sign + exp_digits,
        ),
{
    let m = decimal_text(whole, point, frac);
    lemma_decimal_is_mantissa(whole, point, frac);
    let e = exp_sign + exp_digits;
    lemma_signed_digits_exponent(exp_sign, exp_digits);
    lemma_number_with_exponent(m, marker, e);
    let body = m + seq![marker] + e;
    assert(body[0] == m[0]);
    assert(!is_sign(body[0])) by {
        assert(is_digit(m[0]) || m[0] == '.');
    }
    lemma_signed(sign, body);
    assert(sign + m + seq![marker] + exp_sign + exp_digits =~= sign + body);
}

/// `inf`, `infinity` and `nan`, in any mix of cases and with an optional
/// sign, are literals.
pub proof fn law_special_literals(sign: Seq<char>, word: Seq<char>)
    requires
        optional_sign(sign),
        ({
            let lower = "infinity"@;
            let upper = "INFINITY"@;
            (word.len() == 3 || word.len() == 8) && forall|i: int|
                0 <= i < word.len() ==> #[trigger] word[i] == lower[i] || word[i] == upper[i]
        }) || (word.len() == 3 && forall|i: int|
            0 <= i < 3 ==> #[trigger] word[i] == "nan"@[i] || word[i] == "NAN"@[i]),
    ensures
        is_float_literal(sign + word),
{
    reveal_strlit("infinity");
    reveal_strlit("INFINITY");
    reveal_strlit("nan");
    reveal_strlit("NAN");
    assert(!is_sign(word[0]));
    lemma_signed(sign, word);
    if word.len() == 3 && word[0] != 'n' && word[0] != 'N' {
        assert(ci_eq(word, seq!['i', 'n', 'f'], seq!['I', 'N', 'F']));
    } else if word.len() == 8 {
        assert(ci_eq(
            word,
            seq!['i', 'n', 'f', 'i', 'n', 'i', 't', 'y'],
            seq!['I', 'N', 'F', 'I', 'N', 'I', 'T', 'Y'],
        ));
    } else {
        assert(ci_eq(word, seq!['n', 'a', 'n'], seq!['N', 'A', 'N']));
    }
}

proof fn lemma_number_chars(body: Seq<char>)
    requires
        is_number(body),
    ensures
        forall|i: int|
            0 <= i < body.len() ==> is_digit(#[trigger] body[i]) || body[i] == '.' || body[i] == 'e'
                || body[i] == 'E' || is_sign(body[i]),
        forall|i: int, j: int|
            0 <= i < j < body.len() && #[trigger] body[i] == '.' ==> #[trigger] body[j] != '.',
{
    let k = pos_of(body, 'e', 'E') as int;
    lemma_pos_of_facts(body, 'e', 'E');
    let m = body.take(k);
    let d = pos_of(m, '.', '.') as int;
    lemma_pos_of_facts(m, '.', '.');
    // in the mantissa only position d may be a point
    assert forall|i: int| 0 <= i < k && i != d implies is_digit(#[trigger] body[i]) by {
        assert(body[i] == m[i]);
        if d >= m.len() {
            assert(is_digit(m[i]));
        } else if i < d {
            assert(m[i] == m.take(d)[i]);
        } else {
            assert(m[i] == m.skip(d + 1)[i - d - 1]);
        }
    }
    // after the exponent marker only a sign then digits
    if k < body.len() {
        let e = body.skip(k + 1);
        assert forall|i: int| k + 1 <= i < body.len() implies is_digit(#[trigger] body[i]) || is_sign(
            body[i],
        ) && i == k + 1 by {
            assert(body[i] == e[i - k - 1]);
            if e.len() > 0 && is_sign(e[0]) {
                if i > k + 1 {
                    assert(e[i - k - 1] == e.drop_first()[i - k - 2]);
                }
            }
        }
    }
    assert forall|i: int|
        0 <= i < body.len() implies is_digit(#[trigger] body[i]) || body[i] == '.' || body[i] == 'e'
        || body[i] == 'E' || is_sign(body[i]) by {
        if i < k && i != d {
        } else if i == d && i < k {
            assert(body[i] == m[i]);
        } else if i == k {
        } else {
        }
    }
    assert forall|i: int, j: int| 0 <= i < j < body.len() && #[trigger] body[i] == '.' implies #[trigger] body[j]
        != '.' by {
        if i < k && i != d {
            assert(is_digit(body[i]));
        }
        if i == k {
        }
        if i > k {
            assert(is_digit(body[i]) || is_sign(body[i]));
        }
        if j < k && j != d {
            assert(is_digit(body[j]));
        }
        if j > k {
            assert(is_digit(body[j]) || is_sign(body[j]));
        }
    }
}

/// A literal that has a digit in it is written with digits, signs, a point
/// and `e` or `E` only, and has at most one point; a word with any other
/// character, or with two points, is no number.
pub proof fn law_literal_characters(s: Seq<char>)
    requires
        is_float_literal(s),
        exists|i: int| 0 <= i < s.len() && is_digit(#[trigger] s[i]),
    ensures
        forall|i: int|
            0 <= i < s.len() ==> is_digit(#[trigger] s[i]) || s[i] == '.' || s[i] == 'e' || s[i]
                == 'E' || is_sign(s[i]),
        forall|i: int, j: int| 0 <= i < j < s.len() && #[trigger] s[i] == '.' ==> #[trigger] s[j] != '.',
{
    let signed = s.len() > 0 && is_sign(s[0]);
    let o: int = if signed {
        1
    } else {
        0
    };
    let body = if signed {
        s.drop_first()
    } else {
        s
    };
    assert forall|i: int| o <= i < s.len() implies #[trigger] s[i] == body[i - o] by {}
    let w = choose|i: int| 0 <= i < s.len() && is_digit(#[trigger] s[i]);
    if is_special_float(body) {
        assert(w >= o);
        assert(s[w] == body[w - o]);
        assert(false);
    }
    lemma_number_chars(body);
    assert forall|i: int|
        0 <= i < s.len() implies is_digit(#[trigger] s[i]) || s[i] == '.' || s[i] == 'e' || s[i]
        == 'E' || is_sign(s[i]) by {
        if i >= o {
            assert(s[i] == body[i - o]);
        }
    }
    assert forall|i: int, j: int| 0 <= i < j < s.len() && #[trigger] s[i] == '.' implies #[trigger] s[j]
        != '.' by {
        if i >= o {
            assert(s[i] == body[i - o]);
            assert(s[j] == body[j - o]);
        }
    }
}

/// Why a word is not an unsigned integer of the expected width.
#[derive(Clone, Copy, Debug, PartialEq, Eq, Structural)]
pub enum IntErrorKind {
    /// The word is empty.
    Empty,
    /// A character that is not a decimal digit (a lone sign counts as one).
    InvalidDigit,
    /// The value does not fit below the limit.
    PosOverflow,
}

pub open spec fn digit_value(c: char) -> nat {
    ((c as u32) - ('0' as u32)) as nat
}

/// Scan of the digits `s[i..]` on top of the value `acc` of those before,
/// as `from_str` does it: the first non-digit, or the first prefix whose
/// value exceeds `max`, ends the scan with an error.
pub open spec fn scan_digits(s: Seq<char>, i: int, acc: nat, max: nat) -> Result<nat, IntErrorKind>
    decreases s.len() - i,
{
    if i >= s.len() {
        Ok(acc)
    } else if !is_digit(s[i]) {
        Err(IntErrorKind::InvalidDigit)
    } else if acc * 10 + digit_value(s[i]) > max {
        Err(IntErrorKind::PosOverflow)
    } else {
        scan_digits(s, i + 1, acc * 10 + digit_value(s[i]), max)
    }
}

/// `from_str` for an unsigned integer type whose largest value is `max`:
/// an optional `+`, then decimal digits.
pub open spec fn parse_unsigned(s: Seq<char>, max: nat) -> Result<nat, IntErrorKind> {
    if s.len() == 0 {
        Err(IntErrorKind::Empty)
    } else if is_sign(s[0]) && s.len() == 1 {
        Err(IntErrorKind::InvalidDigit)
    } else if s[0] == '+' {
        scan_digits(s, 1, 0, max)
    } else {
        scan_digits(s, 0, 0, max)
    }
}

proof fn lemma_scan_bounded(s: Seq<char>, i: int, acc: nat, max: nat)
    requires
        acc <= max,
    ensures
        scan_digits(s, i, acc, max) matches Ok(v) ==> v <= max,
    decreases s.len() - i,
{
    if i < s.len() && is_digit(s[i]) && acc * 10 + digit_value(s[i]) <= max {
        lemma_scan_bounded(s, i + 1, acc * 10 + digit_value(s[i]), max);
    }
}

/// A value that `parse_unsigned` accepts is at most its limit.
pub proof fn lemma_parse_unsigned_bounded(s: Seq<char>, max: nat)
    ensures
        parse_unsigned(s, max) matches Ok(v) ==> v <= max,
{
    if s.len() > 0 {
        if s[0] == '+' {
            lemma_scan_bounded(s, 1, 0, max);
        } else {
            lemma_scan_bounded(s, 0, 0, max);
        }
    }
}

/// Reads an unsigned decimal integer no larger than `max`.
pub fn parse_unsigned_word(s: &Vec<char>, max: u64) -> (r: Result<u64, IntErrorKind>)
    ensures
        match r {
            Ok(v) => parse_unsigned(s@, max as nat) == Ok::<nat, IntErrorKind>(v as nat),
            Err(e) => parse_unsigned(s@, max as nat) == Err::<nat, IntErrorKind>(e),
        },
{
    let n = s.len();
    if n == 0 {
        return Err(IntErrorKind::Empty);
    }
    if (s[0] == '+' || s[0] == '-') && n == 1 {
        return Err(IntErrorKind::InvalidDigit);
    }
    let mut i: usize = if s[0] == '+' {
        1
    } else {
        0
    };
    let ghost start = i as int;
    let mut acc: u64 = 0;
    while i < n
        invariant
            n == s@.len(),
            i <= n,
            acc <= max,
            parse_unsigned(s@, max as nat) == scan_digits(s@, i as int, acc as nat, max as nat),
        decreases n - i,
    {
        let c = s[i];
        if !digit(c) {
            return Err(IntErrorKind::InvalidDigit);
        }
        let d = (c as u32 - '0' as u32) as u64;
        assert(d == digit_value(c));
        if d > max || acc > (max - d) / 10 {
            proof {
                if d <= max {
                    assert(acc * 10 + d > max) by (nonlinear_arith)
                        requires
                            acc > (max - d) / 10,
                            d <= max,
                    ;
                }
            }
            return Err(IntErrorKind::PosOverflow);
        }
        proof {
            assert(acc * 10 + d <= max) by (nonlinear_arith)
                requires
                    acc <= (max - d) / 10,
                    d <= max,
            ;
        }
        acc = acc * 10 + d;
        i += 1;
    }
    Ok(acc)
}

} // verus!
