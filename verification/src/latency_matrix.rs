//! The square latency matrix: parsing from whitespace-separated text, the
//! indexed lookup, and the millisecond rendering that round-trips through the
//! parser.
//!
//! Latencies are held as whole nanoseconds. A token is a decimal numeral
//! with an optional fractional part (`5`, `0.25`, `.5`, `5.`); its value is
//! scaled by the time unit and truncated to whole nanoseconds.

use vstd::prelude::*;

use crate::text::{all_digits, dec_digits, digit_val, digits_val, is_digit_char};

verus! {

/// Whether `c` separates tokens within one line.
pub open spec fn is_space_char(c: char) -> bool {
    c == ' ' || c == '\t' || c == '\r'
}

/// The index of the first `'\n'` at or after `from`, or `s.len()`.
pub open spec fn find_newline(s: Seq<char>, from: int) -> int
    decreases s.len() - from when from >= 0
{
    if !(0 <= from < s.len()) {
        s.len() as int
    } else if s[from] == '\n' {
        from
    } else {
        find_newline(s, from + 1)
    }
}

/// The index of the first non-separator at or after `from`, or `s.len()`.
pub open spec fn find_non_space(s: Seq<char>, from: int) -> int
    decreases s.len() - from when from >= 0
{
    if !(0 <= from < s.len()) {
        s.len() as int
    } else if !is_space_char(s[from]) {
        from
    } else {
        find_non_space(s, from + 1)
    }
}

/// The index of the first separator at or after `from`, or `s.len()`.
pub open spec fn find_space(s: Seq<char>, from: int) -> int
    decreases s.len() - from when from >= 0
{
    if !(0 <= from < s.len()) {
        s.len() as int
    } else if is_space_char(s[from]) {
        from
    } else {
        find_space(s, from + 1)
    }
}

/// The index of the first `'.'` at or after `from`, or `s.len()`.
pub open spec fn find_dot(s: Seq<char>, from: int) -> int
    decreases s.len() - from when from >= 0
{
    if !(0 <= from < s.len()) {
        s.len() as int
    } else if s[from] == '.' {
        from
    } else {
        find_dot(s, from + 1)
    }
}

/// `find_newline` is the unique boundary: everything before it differs from
/// `'\n'`, and it is `'\n'` or the end.
pub proof fn lemma_find_newline(s: Seq<char>, from: int)
    requires
        0 <= from <= s.len(),
    ensures
        from <= find_newline(s, from) <= s.len(),
        find_newline(s, from) < s.len() ==> s[find_newline(s, from)] == '\n',
        forall|j: int| from <= j < find_newline(s, from) ==> s[j] != '\n',
    decreases s.len() - from,
{
    if from < s.len() && s[from] != '\n' {
        lemma_find_newline(s, from + 1);
    }
}

/// `find_non_space` is the first non-separator position.
pub proof fn lemma_find_non_space(s: Seq<char>, from: int)
    requires
        0 <= from <= s.len(),
    ensures
        from <= find_non_space(s, from) <= s.len(),
        find_non_space(s, from) < s.len() ==> !is_space_char(s[find_non_space(s, from)]),
        forall|j: int| from <= j < find_non_space(s, from) ==> is_space_char(s[j]),
    decreases s.len() - from,
{
    if from < s.len() && is_space_char(s[from]) {
        lemma_find_non_space(s, from + 1);
    }
}

/// `find_space` is the first separator position.
pub proof fn lemma_find_space(s: Seq<char>, from: int)
    requires
        0 <= from <= s.len(),
    ensures
        from <= find_space(s, from) <= s.len(),
        find_space(s, from) < s.len() ==> is_space_char(s[find_space(s, from)]),
        forall|j: int| from <= j < find_space(s, from) ==> !is_space_char(s[j]),
    decreases s.len() - from,
{
    if from < s.len() && !is_space_char(s[from]) {
        lemma_find_space(s, from + 1);
    }
}

/// `find_dot` is the first `'.'` position.
pub proof fn lemma_find_dot(s: Seq<char>, from: int)
    requires
        0 <= from <= s.len(),
    ensures
        from <= find_dot(s, from) <= s.len(),
        find_dot(s, from) < s.len() ==> s[find_dot(s, from)] == '.',
        forall|j: int| from <= j < find_dot(s, from) ==> s[j] != '.',
    decreases s.len() - from,
{
    if from < s.len() && s[from] != '.' {
        lemma_find_dot(s, from + 1);
    }
}

/// A position with the boundary properties of `find_newline` is it.
pub proof fn lemma_find_newline_unique(s: Seq<char>, from: int, r: int)
    requires
        0 <= from <= r <= s.len(),
        r < s.len() ==> s[r] == '\n',
        forall|j: int| from <= j < r ==> s[j] != '\n',
    ensures
        find_newline(s, from) == r,
    decreases r - from,
{
    if from < r {
        lemma_find_newline_unique(s, from + 1, r);
    }
}

/// A position with the boundary properties of `find_non_space` is it.
pub proof fn lemma_find_non_space_unique(s: Seq<char>, from: int, r: int)
    requires
        0 <= from <= r <= s.len(),
        r < s.len() ==> !is_space_char(s[r]),
        forall|j: int| from <= j < r ==> is_space_char(s[j]),
    ensures
        find_non_space(s, from) == r,
    decreases r - from,
{
    if from < r {
        lemma_find_non_space_unique(s, from + 1, r);
    }
}

/// A position with the boundary properties of `find_space` is it.
pub proof fn lemma_find_space_unique(s: Seq<char>, from: int, r: int)
    requires
        0 <= from <= r <= s.len(),
        r < s.len() ==> is_space_char(s[r]),
        forall|j: int| from <= j < r ==> !is_space_char(s[j]),
    ensures
        find_space(s, from) == r,
    decreases r - from,
{
    if from < r {
        lemma_find_space_unique(s, from + 1, r);
    }
}

/// A position with the boundary properties of `find_dot` is it.
pub proof fn lemma_find_dot_unique(s: Seq<char>, from: int, r: int)
    requires
        0 <= from <= r <= s.len(),
        r < s.len() ==> s[r] == '.',
        forall|j: int| from <= j < r ==> s[j] != '.',
    ensures
        find_dot(s, from) == r,
    decreases r - from,
{
    if from < r {
        lemma_find_dot_unique(s, from + 1, r);
    }
}

/// The lines of `s`, split on `'\n'`. A trailing newline contributes a final
/// empty line, which the parser skips like any other blank line.
pub open spec fn split_lines(s: Seq<char>) -> Seq<Seq<char>>
    decreases s.len()
    via split_lines_decreases
{
    let k = find_newline(s, 0);
    if k >= s.len() {
        seq![s]
    } else {
        seq![s.subrange(0, k)] + split_lines(s.subrange(k + 1, s.len() as int))
    }
}

#[via_fn]
proof fn split_lines_decreases(s: Seq<char>) {
    lemma_find_newline(s, 0);
}

/// The whitespace-separated tokens of the line `s`, from position `from` on.
pub open spec fn tokens_from(s: Seq<char>, from: int) -> Seq<Seq<char>>
    decreases s.len() - from when 0 <= from
    via tokens_from_decreases
{
    let a = find_non_space(s, from);
    if a >= s.len() {
        Seq::empty()
    } else {
        let b = find_space(s, a);
        seq![s.subrange(a, b)] + tokens_from(s, b)
    }
}

#[via_fn]
proof fn tokens_from_decreases(s: Seq<char>, from: int) {
    if 0 <= from <= s.len() {
        lemma_find_non_space(s, from);
        let a = find_non_space(s, from);
        if a < s.len() {
            lemma_find_space(s, a);
        }
    }
}

/// The index of the first exponent marker (`e` or `E`) at or after
/// `from`, or `s.len()`.
pub open spec fn find_exp(s: Seq<char>, from: int) -> int
    decreases s.len() - from when from >= 0
{
    if !(0 <= from < s.len()) {
        s.len() as int
    } else if s[from] == 'e' || s[from] == 'E' {
        from
    } else {
        find_exp(s, from + 1)
    }
}

/// `find_exp` is the first exponent-marker position.
pub proof fn lemma_find_exp(s: Seq<char>, from: int)
    requires
        0 <= from <= s.len(),
    ensures
        from <= find_exp(s, from) <= s.len(),
        find_exp(s, from) < s.len() ==> (s[find_exp(s, from)] == 'e' || s[find_exp(s, from)]
            == 'E'),
        forall|j: int| from <= j < find_exp(s, from) ==> (s[j] != 'e' && s[j] != 'E'),
    decreases s.len() - from,
{
    if from < s.len() && s[from] != 'e' && s[from] != 'E' {
        lemma_find_exp(s, from + 1);
    }
}

/// A position with the boundary properties of `find_exp` is it.
pub proof fn lemma_find_exp_unique(s: Seq<char>, from: int, r: int)
    requires
        0 <= from <= r <= s.len(),
        r < s.len() ==> (s[r] == 'e' || s[r] == 'E'),
        forall|j: int| from <= j < r ==> (s[j] != 'e' && s[j] != 'E'),
    ensures
        find_exp(s, from) == r,
    decreases r - from,
{
    if from < r {
        lemma_find_exp_unique(s, from + 1, r);
    }
}

/// Whether `c` may sign a numeral or its exponent.
pub open spec fn is_sign_char(c: char) -> bool {
    c == '+' || c == '-'
}

/// Where the numeral proper begins: after an optional leading plus.
pub open spec fn token_start(t: Seq<char>) -> int {
    if t.len() > 0 && t[0] == '+' {
        1
    } else {
        0
    }
}

/// The mantissa of the numeral: from the optional sign to the exponent
/// marker or the end.
pub open spec fn mant_of(t: Seq<char>) -> Seq<char> {
    t.subrange(token_start(t), find_exp(t, token_start(t)))
}

/// Whether the numeral carries an exponent part.
pub open spec fn has_exp(t: Seq<char>) -> bool {
    find_exp(t, token_start(t)) < t.len()
}

/// The exponent part after the marker, its optional sign included.
pub open spec fn exp_seq(t: Seq<char>) -> Seq<char> {
    t.subrange(find_exp(t, token_start(t)) + 1, t.len() as int)
}

/// The digits of an exponent part, the optional sign stripped.
pub open spec fn exp_digits(x: Seq<char>) -> Seq<char> {
    if x.len() > 0 && is_sign_char(x[0]) {
        x.subrange(1, x.len() as int)
    } else {
        x
    }
}

/// Whether an exponent part is negative.
pub open spec fn exp_negative(x: Seq<char>) -> bool {
    x.len() > 0 && x[0] == '-'
}

/// Whether an exponent part is well-formed: one or more digits after the
/// optional sign.
pub open spec fn exp_ok(x: Seq<char>) -> bool {
    exp_digits(x).len() >= 1 && all_digits(exp_digits(x))
}

/// The integer digits of a mantissa.
pub open spec fn mant_ipart(m: Seq<char>) -> Seq<char> {
    m.subrange(0, find_dot(m, 0))
}

/// The fractional digits of a mantissa, empty without a dot.
pub open spec fn mant_fpart(m: Seq<char>) -> Seq<char> {
    if find_dot(m, 0) >= m.len() {
        Seq::empty()
    } else {
        m.subrange(find_dot(m, 0) + 1, m.len() as int)
    }
}

/// Whether a mantissa is well-formed: digits with at most one dot and at
/// least one digit.
pub open spec fn mant_ok(m: Seq<char>) -> bool {
    let d = find_dot(m, 0);
    &&& all_digits(mant_ipart(m))
    &&& all_digits(mant_fpart(m))
    &&& mant_ipart(m).len() + mant_fpart(m).len() >= 1
    &&& (d < m.len() ==> find_dot(m, d + 1) >= m.len())
}

/// Whether `t` is a well-formed finite non-negative numeral, as the float
/// grammar admits it: an optional leading plus, digits with at most one
/// dot and at least one digit, and an optional signed decimal exponent.
pub open spec fn token_grammar_ok(t: Seq<char>) -> bool {
    &&& mant_ok(mant_of(t))
    &&& (has_exp(t) ==> exp_ok(exp_seq(t)))
}

/// All mantissa digits of the numeral, integer then fractional.
pub open spec fn token_digits(t: Seq<char>) -> Seq<char> {
    mant_ipart(mant_of(t)) + mant_fpart(mant_of(t))
}

/// The signed exponent of the numeral, zero when absent.
pub open spec fn token_exp(t: Seq<char>) -> int {
    if has_exp(t) {
        if exp_negative(exp_seq(t)) {
            -(digits_val(exp_digits(exp_seq(t))) as int)
        } else {
            digits_val(exp_digits(exp_seq(t))) as int
        }
    } else {
        0
    }
}

/// `v` shifted by `shift` decimal places, truncating on the way down.
pub open spec fn scaled_nat(v: nat, shift: int) -> nat {
    if shift >= 0 {
        v * pow10(shift as nat)
    } else {
        v / pow10((-shift) as nat)
    }
}

/// The value of the numeral `t` in whole nanoseconds, one unit being
/// `10^k` nanoseconds; fractional digits beyond that resolution are
/// truncated.
pub open spec fn token_nanos(t: Seq<char>, k: nat) -> nat {
    scaled_nat(
        digits_val(token_digits(t)),
        k + token_exp(t) - mant_fpart(mant_of(t)).len(),
    )
}


/// Ten to the `n`.
pub open spec fn pow10(n: nat) -> nat
    decreases n,
{
    if n == 0 {
        1
    } else {
        10 * pow10((n - 1) as nat)
    }
}

/// The small powers of ten, spelt out.
pub proof fn lemma_pow10_values()
    ensures
        pow10(0) == 1,
        pow10(1) == 10,
        pow10(2) == 100,
        pow10(3) == 1000,
        pow10(4) == 10000,
        pow10(5) == 100000,
        pow10(6) == 1000000,
        pow10(7) == 10000000,
        pow10(8) == 100000000,
        pow10(9) == 1000000000,
{
    assert(pow10(0) == 1);
    assert(pow10(1) == 10);
    assert(pow10(2) == 100);
    assert(pow10(3) == 1000);
    assert(pow10(4) == 10000);
    assert(pow10(5) == 100000);
    assert(pow10(6) == 1000000);
    assert(pow10(7) == 10000000);
    assert(pow10(8) == 100000000);
    assert(pow10(9) == 1000000000);
}

/// A sequence of `n` digits is worth less than ten to the `n`.
pub proof fn lemma_digits_val_bound(s: Seq<char>)
    requires
        all_digits(s),
    ensures
        digits_val(s) < pow10(s.len()),
    decreases s.len(),
{
    if s.len() == 0 {
    } else {
        let p = s.drop_last();
        assert(all_digits(p));
        lemma_digits_val_bound(p);
        assert(is_digit_char(s.last()));
        assert(digit_val(s.last()) <= 9);
        assert(digits_val(s) == digits_val(p) * 10 + digit_val(s.last()));
        assert(digits_val(p) * 10 <= (pow10(p.len()) - 1) * 10) by (nonlinear_arith)
            requires
                digits_val(p) <= pow10(p.len()) - 1,
        ;
        assert(pow10(s.len()) == 10 * pow10(p.len()));
    }
}

/// The unit a latency value in the matrix text is expressed in.
#[derive(Debug, Clone, Copy, PartialEq, Eq, Structural)]
pub enum TimeUnit {
    Seconds,
    Milliseconds,
}

impl TimeUnit {
    /// How many fractional digits of this unit a nanosecond resolves.
    pub open spec fn spec_frac_digits(self) -> nat {
        match self {
            TimeUnit::Seconds => 9,
            TimeUnit::Milliseconds => 6,
        }
    }

}

/// Whether a numeral must be rejected: it breaks the grammar, or its value
/// in nanoseconds does not fit a `u64`.
pub open spec fn token_bad(t: Seq<char>, unit: TimeUnit) -> bool {
    !token_grammar_ok(t) || token_nanos(t, unit.spec_frac_digits()) > u64::MAX
}

/// The values of the tokens of one line, or the first rejected token.
pub open spec fn line_values(toks: Seq<Seq<char>>, unit: TimeUnit) -> Result<Seq<u64>, Seq<char>>
    decreases toks.len(),
{
    if toks.len() == 0 {
        Ok(Seq::empty())
    } else if token_bad(toks[0], unit) {
        Err(toks[0])
    } else {
        match line_values(toks.skip(1), unit) {
            Ok(vs) => Ok(
                seq![(token_nanos(toks[0], unit.spec_frac_digits()) as u64)] + vs,
            ),
            Err(e) => Err(e),
        }
    }
}

/// What parsing the matrix text yields: the flat value sequence, or the
/// first failure in reading order.
pub enum MatrixParse {
    /// Every line parsed; `dimension` is the width of the first non-empty
    /// line, zero when there was none.
    Done { dimension: nat, nanos: Seq<u64> },
    /// A token that is not an accepted numeral, or whose value overflows.
    BadToken { token: Seq<char> },
    /// A line whose width differs from the first non-empty line's.
    BadWidth { line: nat, dimension: nat, expected: nat },
    /// The number of rows differs from the width.
    NotSquare { rows: nat, expected: nat },
}

/// Folds the lines from position `j` on, threading the expected width and
/// the values gathered so far.
pub open spec fn parse_lines_from(
    lines: Seq<Seq<char>>,
    unit: TimeUnit,
    j: int,
    dim: Option<nat>,
    acc: Seq<u64>,
) -> MatrixParse
    decreases lines.len() - j when 0 <= j
{
    if j >= lines.len() {
        MatrixParse::Done {
            dimension: match dim {
                Some(d) => d,
                None => 0,
            },
            nanos: acc,
        }
    } else {
        let toks = tokens_from(lines[j], 0);
        if toks.len() == 0 {
            parse_lines_from(lines, unit, j + 1, dim, acc)
        } else {
            match line_values(toks, unit) {
                Err(tok) => MatrixParse::BadToken { token: tok },
                Ok(vs) => match dim {
                    Some(d) => if toks.len() != d {
                        MatrixParse::BadWidth { line: j as nat, dimension: toks.len(), expected: d }
                    } else {
                        parse_lines_from(lines, unit, j + 1, dim, acc + vs)
                    },
                    None => parse_lines_from(lines, unit, j + 1, Some(toks.len()), acc + vs),
                },
            }
        }
    }
}

/// What parsing the whole text yields, the squareness check included.
pub open spec fn spec_parse_matrix(s: Seq<char>, unit: TimeUnit) -> MatrixParse {
    match parse_lines_from(split_lines(s), unit, 0, None, Seq::empty()) {
        MatrixParse::Done { dimension: d, nanos } => {
            if nanos.len() == d * d {
                MatrixParse::Done { dimension: d, nanos }
            } else {
                MatrixParse::NotSquare {
                    rows: if d > 0 {
                        nanos.len() / d
                    } else {
                        0
                    },
                    expected: d,
                }
            }
        },
        other => other,
    }
}


impl TimeUnit {
    /// The number of fractional digits one nanosecond resolves.
    pub fn frac_digits(&self) -> (r: usize)
        ensures
            r == self.spec_frac_digits(),
    {
        match self {
            TimeUnit::Seconds => 9,
            TimeUnit::Milliseconds => 6,
        }
    }

}

/// Whether every character of `s` is a decimal digit.
fn all_digits_str(s: &str) -> (r: bool)
    ensures
        r == all_digits(s@),
{
    let len = s.unicode_len();
    let mut i: usize = 0;
    while i < len
        invariant
            len == s@.len(),
            i <= len,
            forall|j: int| 0 <= j < i ==> is_digit_char(#[trigger] s@[j]),
        decreases len - i,
    {
        let cv = s.get_char(i) as u32;
        if cv < 48 || cv > 57 {
            return false;
        }
        i += 1;
    }
    true
}

/// Powers of ten are positive.
pub proof fn lemma_pow10_pos(n: nat)
    ensures
        pow10(n) >= 1,
    decreases n,
{
    if n > 0 {
        lemma_pow10_pos((n - 1) as nat);
    }
}

/// Powers of ten are monotone in the exponent.
pub proof fn lemma_pow10_mono(a: nat, b: nat)
    requires
        a <= b,
    ensures
        pow10(a) <= pow10(b),
    decreases b - a,
{
    if a < b {
        lemma_pow10_mono(a, (b - 1) as nat);
        lemma_pow10_pos((b - 1) as nat);
    }
}

/// The powers of ten from ten to twenty digits, spelt out; the last one
/// exceeds any `u64`.
pub proof fn lemma_pow10_values_hi()
    ensures
        pow10(10) == 10000000000,
        pow10(11) == 100000000000,
        pow10(12) == 1000000000000,
        pow10(13) == 10000000000000,
        pow10(14) == 100000000000000,
        pow10(15) == 1000000000000000,
        pow10(16) == 10000000000000000,
        pow10(17) == 100000000000000000,
        pow10(18) == 1000000000000000000,
        pow10(19) == 10000000000000000000,
        pow10(20) == 100000000000000000000,
        pow10(20) > u64::MAX,
{
    lemma_pow10_values();
    assert(pow10(10) == 10 * pow10(9));
    assert(pow10(11) == 10 * pow10(10));
    assert(pow10(12) == 10 * pow10(11));
    assert(pow10(13) == 10 * pow10(12));
    assert(pow10(14) == 10 * pow10(13));
    assert(pow10(15) == 10 * pow10(14));
    assert(pow10(16) == 10 * pow10(15));
    assert(pow10(17) == 10 * pow10(16));
    assert(pow10(18) == 10 * pow10(17));
    assert(pow10(19) == 10 * pow10(18));
    assert(pow10(20) == 10 * pow10(19));
}

/// Splitting a digit string splits its value by a power of ten.
pub proof fn lemma_digits_val_split(s: Seq<char>, j: int)
    requires
        0 <= j <= s.len(),
    ensures
        digits_val(s) == digits_val(s.take(j)) * pow10((s.len() - j) as nat) + digits_val(
            s.skip(j),
        ),
    decreases s.len(),
{
    if j == s.len() {
        assert(s.take(j) =~= s);
        assert(s.skip(j) =~= Seq::<char>::empty());
        assert(digits_val(Seq::<char>::empty()) == 0);
        assert(pow10(0) == 1);
        assert(digits_val(s) * 1 == digits_val(s)) by (nonlinear_arith);
    } else {
        let p = s.drop_last();
        lemma_digits_val_split(p, j);
        assert(s.take(j) =~= p.take(j));
        assert(s.skip(j).drop_last() =~= p.skip(j));
        assert(s.skip(j).last() == s.last());
        assert(digits_val(s.skip(j)) == digits_val(p.skip(j)) * 10 + digit_val(s.last()));
        assert(digits_val(s) == digits_val(p) * 10 + digit_val(s.last()));
        let tv = digits_val(s.take(j));
        let sp = digits_val(p.skip(j));
        assert(pow10((s.len() - j) as nat) == 10 * pow10((s.len() - 1 - j) as nat));
        assert((tv * pow10((s.len() - 1 - j) as nat) + sp) * 10 == tv * (10 * pow10((s.len() - 1
            - j) as nat)) + sp * 10) by (nonlinear_arith);
    }
}

/// Dropping the last `m` digits divides the value by ten to the `m`.
pub proof fn lemma_digits_val_truncate(s: Seq<char>, m: nat)
    requires
        m <= s.len(),
        all_digits(s),
    ensures
        digits_val(s) / pow10(m) == digits_val(s.take((s.len() - m) as int)),
{
    let j = (s.len() - m) as int;
    lemma_digits_val_split(s, j);
    assert(all_digits(s.skip(j))) by {
        assert forall|q: int| 0 <= q < s.skip(j).len() implies is_digit_char(
            #[trigger] s.skip(j)[q],
        ) by {
            assert(s.skip(j)[q] == s[j + q]);
        }
    }
    lemma_digits_val_bound(s.skip(j));
    lemma_pow10_pos(m);
    vstd::arithmetic::div_mod::lemma_fundamental_div_mod_converse(
        digits_val(s) as int,
        pow10(m) as int,
        digits_val(s.take(j)) as int,
        digits_val(s.skip(j)) as int,
    );
}

/// A value below the divisor floors to zero.
pub proof fn lemma_div_small(v: nat, d: nat)
    requires
        v < d,
        d >= 1,
    ensures
        v / d == 0,
{
    vstd::arithmetic::div_mod::lemma_fundamental_div_mod_converse(v as int, d as int, 0, v as int);
}

/// Whether `c` marks an exponent.
fn exp_marker_char(c: char) -> (r: bool)
    ensures
        r == (c == 'e' || c == 'E'),
{
    c == 'e' || c == 'E'
}

/// Whether `c` is a dot.
fn dot_char(c: char) -> (r: bool)
    ensures
        r == (c == '.'),
{
    c == '.'
}

/// Ten to the `e`, for products a `u64` can carry.
fn pow10_u64(e: usize) -> (r: u64)
    requires
        e <= 19,
    ensures
        r == pow10(e as nat),
{
    proof {
        lemma_pow10_values();
        lemma_pow10_values_hi();
    }
    if e == 0 {
        1
    } else if e == 1 {
        10
    } else if e == 2 {
        100
    } else if e == 3 {
        1000
    } else if e == 4 {
        10000
    } else if e == 5 {
        100000
    } else if e == 6 {
        1000000
    } else if e == 7 {
        10000000
    } else if e == 8 {
        100000000
    } else if e == 9 {
        1000000000
    } else if e == 10 {
        10000000000
    } else if e == 11 {
        100000000000
    } else if e == 12 {
        1000000000000
    } else if e == 13 {
        10000000000000
    } else if e == 14 {
        100000000000000
    } else if e == 15 {
        1000000000000000
    } else if e == 16 {
        10000000000000000
    } else if e == 17 {
        100000000000000000
    } else if e == 18 {
        1000000000000000000
    } else {
        10000000000000000000
    }
}

/// The value of the first `keep` digits of the concatenation of two digit
/// strings, `None` when it overflows a `u64`.
#[verifier::loop_isolation(false)]
fn digits_prefix_value(a: &str, b: &str, keep: usize) -> (r: Option<u64>)
    requires
        all_digits(a@),
        all_digits(b@),
        keep <= a@.len() + b@.len(),
    ensures
        r is Some <==> digits_val((a@ + b@).take(keep as int)) <= u64::MAX,
        r matches Some(v) ==> v == digits_val((a@ + b@).take(keep as int)),
{
    let alen = a.unicode_len();
    let ghost d = a@ + b@;
    let mut acc: u64 = 0;
    let mut i: usize = 0;
    while i < keep
        invariant
            i <= keep,
            acc == digits_val(d.take(i as int)),
        decreases keep - i,
    {
        let c = if i < alen {
            a.get_char(i)
        } else {
            b.get_char(i - alen)
        };
        proof {
            assert(c == d[i as int]);
            assert(is_digit_char(d[i as int]));
        }
        let cv = c as u32;
        let dg = (cv - 48) as u64;
        proof {
            let pre = d.take(i as int);
            let post = d.take(i + 1);
            assert(post.drop_last() =~= pre);
            assert(post.last() == d[i as int]);
            assert(digits_val(post) == digits_val(pre) * 10 + digit_val(d[i as int]));
        }
        if acc > (u64::MAX - dg) / 10 {
            proof {
                assert(digits_val(d.take(i + 1)) > u64::MAX);
                crate::text::lemma_digits_val_monotonic(d.take(keep as int), i + 1);
                assert(d.take(keep as int).subrange(0, i + 1) =~= d.take(i + 1));
            }
            return None;
        }
        acc = acc * 10 + dg;
        i += 1;
    }
    Some(acc)
}

/// The exponent values beyond which the numeral's magnitude is settled,
/// whatever the digit counts: far larger than any string length.
const EXP_SAT: u128 = 1000000000000000000000000000000;

/// Parses an exponent part: an optional sign and decimal digits, the
/// value clamped at a bound no digit count can reach.
#[verifier::loop_isolation(false)]
fn parse_exponent(x: &str) -> (r: Option<(bool, u128)>)
    ensures
        r is Some <==> exp_ok(x@),
        r matches Some(p) ==> {
            &&& p.0 == exp_negative(x@)
            &&& p.1 <= EXP_SAT
            &&& (digits_val(exp_digits(x@)) <= EXP_SAT ==> p.1 == digits_val(exp_digits(x@)))
            &&& (digits_val(exp_digits(x@)) > EXP_SAT ==> p.1 == EXP_SAT)
        },
{
    let len = x.unicode_len();
    let mut neg = false;
    let mut es: usize = 0;
    if len > 0 {
        let c0 = x.get_char(0);
        if c0 == '-' {
            neg = true;
            es = 1;
        } else if c0 == '+' {
            es = 1;
        }
    }
    let ghost xd = exp_digits(x@);
    proof {
        assert(xd =~= x@.subrange(es as int, len as int));
        assert(neg == exp_negative(x@));
    }
    if es == len {
        proof {
            assert(xd.len() == 0);
        }
        return None;
    }
    let mut acc: u128 = 0;
    let mut i: usize = es;
    while i < len
        invariant
            es <= i <= len,
            all_digits(xd.take(i - es)),
            digits_val(xd.take(i - es)) <= EXP_SAT ==> acc == digits_val(xd.take(i - es)),
            digits_val(xd.take(i - es)) > EXP_SAT ==> acc == EXP_SAT,
            acc <= EXP_SAT,
        decreases len - i,
    {
        let c = x.get_char(i);
        let cv = c as u32;
        if cv < 48 || cv > 57 {
            proof {
                assert(xd[i - es] == x@[i as int]);
                assert(!all_digits(xd));
            }
            return None;
        }
        let dg = (cv - 48) as u128;
        proof {
            let pre = xd.take(i - es);
            let post = xd.take(i - es + 1);
            assert(post.drop_last() =~= pre);
            assert(post.last() == xd[i - es]);
            assert(xd[i - es] == x@[i as int]);
            assert(digits_val(post) == digits_val(pre) * 10 + digit_val(xd[i - es]));
        }
        let acc2 = acc * 10 + dg;
        if acc2 > EXP_SAT {
            proof {
                let pre = xd.take(i - es);
                let post = xd.take(i - es + 1);
                if digits_val(pre) <= EXP_SAT {
                    assert(digits_val(post) > EXP_SAT);
                } else {
                    assert(digits_val(pre) * 10 + digit_val(xd[i - es]) > EXP_SAT)
                        by (nonlinear_arith)
                        requires
                            digits_val(pre) > EXP_SAT,
                    ;
                }
            }
            acc = EXP_SAT;
        } else {
            acc = acc2;
        }
        i += 1;
    }
    proof {
        assert(xd.take((len - es) as int) =~= xd);
    }
    Some((neg, acc))
}

/// Parses one numeral token into whole nanoseconds; `None` exactly when
/// the token must be rejected: a broken grammar, or a value that does not
/// fit whole `u64` nanoseconds.
#[verifier::loop_isolation(false)]
#[verifier::rlimit(60)]
fn parse_token_nanos(t: &str, unit: TimeUnit) -> (r: Option<u64>)
    ensures
        r is None <==> token_bad(t@, unit),
        r matches Some(v) ==> v == token_nanos(t@, unit.spec_frac_digits()),
{
    let ghost k = unit.spec_frac_digits();
    let len = t.unicode_len();
    if len == 0 {
        proof {
            assert(mant_of(t@) =~= Seq::<char>::empty());
            assert(mant_ipart(mant_of(t@)) =~= Seq::<char>::empty());
            assert(mant_fpart(mant_of(t@)) =~= Seq::<char>::empty());
            assert(!token_grammar_ok(t@));
        }
        return None;
    }
    let start: usize = if t.get_char(0) == '+' {
        1
    } else {
        0
    };
    proof {
        assert(start == token_start(t@));
    }

    // the exponent marker, if any
    let mut ep: usize = start;
    while ep < len && !exp_marker_char(t.get_char(ep))
        invariant
            start <= ep <= len,
            forall|j: int| start <= j < ep ==> (t@[j] != 'e' && t@[j] != 'E'),
        decreases len - ep,
    {
        ep += 1;
    }
    proof {
        lemma_find_exp_unique(t@, start as int, ep as int);
    }
    let mant = t.substring_char(start, ep);
    let ghost mv = mant_of(t@);
    proof {
        assert(mant@ == mv);
    }
    let mlen = ep - start;

    // the mantissa: digits around at most one dot
    let mut dd: usize = 0;
    while dd < mlen && !dot_char(mant.get_char(dd))
        invariant
            dd <= mlen,
            mlen == mant@.len(),
            forall|j: int| 0 <= j < dd ==> mant@[j] != '.',
        decreases mlen - dd,
    {
        dd += 1;
    }
    proof {
        lemma_find_dot_unique(mant@, 0, dd as int);
    }
    let ipart = mant.substring_char(0, dd);
    let fpart: &str = if dd < mlen {
        let mut d2: usize = dd + 1;
        while d2 < mlen && !dot_char(mant.get_char(d2))
            invariant
                dd + 1 <= d2 <= mlen,
                mlen == mant@.len(),
                forall|j: int| dd + 1 <= j < d2 ==> mant@[j] != '.',
            decreases mlen - d2,
        {
            d2 += 1;
        }
        if d2 < mlen {
            proof {
                lemma_find_dot(mant@, dd as int + 1);
                assert(find_dot(mant@, dd as int + 1) <= d2 < mant@.len());
                assert(!mant_ok(mv));
            }
            return None;
        }
        proof {
            lemma_find_dot_unique(mant@, dd as int + 1, mlen as int);
        }
        mant.substring_char(dd + 1, mlen)
    } else {
        mant.substring_char(mlen, mlen)
    };
    proof {
        assert(ipart@ == mant_ipart(mv));
        assert(fpart@ =~= mant_fpart(mv));
    }
    if !all_digits_str(ipart) {
        proof {
            assert(!mant_ok(mv));
        }
        return None;
    }
    if !all_digits_str(fpart) {
        proof {
            assert(!mant_ok(mv));
        }
        return None;
    }
    let ilen = ipart.unicode_len();
    let flen = fpart.unicode_len();
    if ilen == 0 && flen == 0 {
        proof {
            assert(!mant_ok(mv));
        }
        return None;
    }
    proof {
        assert(mant_ok(mv));
    }

    // the exponent value, clamped far beyond any digit count
    let mut eneg = false;
    let mut esat: u128 = 0;
    if ep < len {
        let x = t.substring_char(ep + 1, len);
        proof {
            assert(x@ == exp_seq(t@));
            assert(has_exp(t@));
        }
        match parse_exponent(x) {
            Some(p) => {
                eneg = p.0;
                esat = p.1;
            },
            None => {
                proof {
                    assert(!token_grammar_ok(t@));
                }
                return None;
            },
        }
    } else {
        proof {
            assert(!has_exp(t@));
        }
    }
    proof {
        assert(token_grammar_ok(t@));
    }

    let dlen = ilen + flen;
    let ghost dseq = token_digits(t@);
    let ghost vval = digits_val(dseq);
    let ghost e = token_exp(t@);
    let ghost shift = k + e - flen;
    proof {
        assert(dseq =~= ipart@ + fpart@);
        assert(all_digits(dseq)) by {
            assert forall|q: int| 0 <= q < dseq.len() implies is_digit_char(
                #[trigger] dseq[q],
            ) by {
                if q < ipart@.len() {
                    assert(dseq[q] == ipart@[q]);
                } else {
                    assert(dseq[q] == fpart@[q - ipart@.len()]);
                }
            }
        }
        assert(dseq.len() == dlen);
        assert(mant_fpart(mv).len() == flen);
        assert(token_nanos(t@, k) == scaled_nat(vval, shift));
        lemma_pow10_values();
        lemma_pow10_values_hi();
        assert(usize::MAX <= u64::MAX);
    }
    let kd = unit.frac_digits();

    if esat == EXP_SAT {
        proof {
            assert(has_exp(t@));
            assert(digits_val(exp_digits(exp_seq(t@))) >= EXP_SAT);
        }
        if eneg {
            proof {
                // the shift is so far down that every digit is truncated
                assert(e <= -(EXP_SAT as int));
                assert(shift < 0);
                assert((-shift) as nat >= EXP_SAT - 9);
                lemma_digits_val_bound(dseq);
                lemma_pow10_mono(dseq.len(), (-shift) as nat);
                lemma_pow10_pos((-shift) as nat);
                lemma_div_small(vval, pow10((-shift) as nat));
                assert(scaled_nat(vval, shift) == 0);
            }
            Some(0)
        } else {
            match digits_prefix_value(ipart, fpart, dlen) {
                Some(va) => {
                    proof {
                        assert(dseq.take(dlen as int) =~= dseq);
                    }
                    if va == 0 {
                        proof {
                            assert(vval == 0);
                            assert(shift >= 0);
                            assert(0 * pow10(shift as nat) == 0) by (nonlinear_arith);
                            assert(scaled_nat(vval, shift) == 0);
                        }
                        Some(0)
                    } else {
                        proof {
                            lemma_token_blowup(vval, shift);
                        }
                        None
                    }
                },
                None => {
                    proof {
                        assert(dseq.take(dlen as int) =~= dseq);
                        assert(vval > u64::MAX);
                        lemma_token_blowup(vval, shift);
                    }
                    None
                },
            }
        }
    } else {
        proof {
            if has_exp(t@) {
                assert(digits_val(exp_digits(exp_seq(t@))) == esat as nat);
            }
        }
        let e128: i128 = if eneg {
            -(esat as i128)
        } else {
            esat as i128
        };
        proof {
            assert(e128 as int == e);
        }
        let shift_i: i128 = kd as i128 + e128 - flen as i128;
        proof {
            assert(shift_i as int == shift);
        }
        if shift_i >= 0 {
            if shift_i >= 20 {
                match digits_prefix_value(ipart, fpart, dlen) {
                    Some(va) => {
                        proof {
                            assert(dseq.take(dlen as int) =~= dseq);
                        }
                        if va == 0 {
                            proof {
                                assert(vval == 0);
                                assert(0 * pow10(shift as nat) == 0) by (nonlinear_arith);
                                assert(scaled_nat(vval, shift) == 0);
                            }
                            Some(0)
                        } else {
                            proof {
                                lemma_token_blowup(vval, shift);
                            }
                            None
                        }
                    },
                    None => {
                        proof {
                            assert(dseq.take(dlen as int) =~= dseq);
                            assert(vval > u64::MAX);
                            lemma_token_blowup(vval, shift);
                        }
                        None
                    },
                }
            } else {
                match digits_prefix_value(ipart, fpart, dlen) {
                    None => {
                        proof {
                            assert(dseq.take(dlen as int) =~= dseq);
                            assert(vval > u64::MAX);
                            lemma_pow10_pos(shift as nat);
                            assert(vval * pow10(shift as nat) >= vval * 1) by (nonlinear_arith)
                                requires
                                    pow10(shift as nat) >= 1,
                            ;
                            assert(vval * 1 == vval) by (nonlinear_arith);
                        }
                        None
                    },
                    Some(va) => {
                        proof {
                            assert(dseq.take(dlen as int) =~= dseq);
                            assert(va == vval);
                        }
                        let sh = shift_i as usize;
                        let mult = pow10_u64(sh);
                        proof {
                            lemma_pow10_pos(sh as nat);
                        }
                        proof {
                            vstd::arithmetic::div_mod::lemma_fundamental_div_mod(
                                u64::MAX as int,
                                mult as int,
                            );
                            assert(u64::MAX % mult < mult) by (nonlinear_arith)
                                requires
                                    mult >= 1,
                            ;
                        }
                        if va > u64::MAX / mult {
                            proof {
                                assert(va * mult > u64::MAX) by (nonlinear_arith)
                                    requires
                                        va > u64::MAX / mult,
                                        mult >= 1,
                                        u64::MAX as int == (mult as int) * ((u64::MAX
                                            / mult) as int) + (u64::MAX % mult) as int,
                                        u64::MAX % mult < mult,
                                ;
                            }
                            None
                        } else {
                            proof {
                                assert(va * mult <= u64::MAX) by (nonlinear_arith)
                                    requires
                                        va <= u64::MAX / mult,
                                        mult >= 1,
                                        u64::MAX as int == (mult as int) * ((u64::MAX
                                            / mult) as int) + (u64::MAX % mult) as int,
                                ;
                                assert(scaled_nat(vval, shift) == va * mult);
                            }
                            Some(va * mult)
                        }
                    },
                }
            }
        } else {
            let m128: u128 = (-shift_i) as u128;
            proof {
                assert(m128 as int == -shift);
            }
            if m128 >= dlen as u128 {
                proof {
                    lemma_digits_val_bound(dseq);
                    lemma_pow10_mono(dseq.len(), (-shift) as nat);
                    lemma_pow10_pos((-shift) as nat);
                    lemma_div_small(vval, pow10((-shift) as nat));
                    assert(scaled_nat(vval, shift) == 0);
                }
                Some(0)
            } else {
                let keep = dlen - (m128 as usize);
                proof {
                    lemma_digits_val_truncate(dseq, (-shift) as nat);
                    assert(scaled_nat(vval, shift) == digits_val(dseq.take(keep as int)));
                }
                match digits_prefix_value(ipart, fpart, keep) {
                    None => {
                        proof {
                            assert(digits_val(dseq.take(keep as int)) > u64::MAX);
                        }
                        None
                    },
                    Some(va) => {
                        proof {
                            assert(va == digits_val(dseq.take(keep as int)));
                        }
                        Some(va)
                    },
                }
            }
        }
    }
}

/// A positive mantissa shifted twenty or more places up overflows any
/// `u64` nanosecond count.
pub proof fn lemma_token_blowup(v: nat, shift: int)
    requires
        v >= 1,
        shift >= 20,
    ensures
        scaled_nat(v, shift) > u64::MAX,
{
    lemma_pow10_values_hi();
    lemma_pow10_mono(20, shift as nat);
    assert(v * pow10(shift as nat) >= 1 * pow10(shift as nat)) by (nonlinear_arith)
        requires
            v >= 1,
            pow10(shift as nat) >= 0,
    ;
    assert(1 * pow10(shift as nat) == pow10(shift as nat)) by (nonlinear_arith);
}

/// A successful line yields exactly one value per token.
pub proof fn lemma_line_values_len(toks: Seq<Seq<char>>, unit: TimeUnit)
    ensures
        line_values(toks, unit) matches Ok(vs) ==> vs.len() == toks.len(),
    decreases toks.len(),
{
    if toks.len() > 0 && !token_bad(toks[0], unit) {
        lemma_line_values_len(toks.skip(1), unit);
    }
}

/// Whether `c` separates tokens within one line.
fn sep_char(c: char) -> (r: bool)
    ensures
        r == is_space_char(c),
{
    c == ' ' || c == '\t' || c == '\r'
}

/// Parses the tokens of one line into nanosecond values, or returns the
/// first rejected token.
fn parse_line_values(line: &str, unit: TimeUnit) -> (r: Result<Vec<u64>, String>)
    ensures
        line_values(tokens_from(line@, 0), unit) matches Ok(vs) ==> (r matches Ok(v) && v@
            == vs),
        line_values(tokens_from(line@, 0), unit) matches Err(tok) ==> (r matches Err(b) && b@
            == tok),
{
    let len = line.unicode_len();
    let ghost full = tokens_from(line@, 0);
    let mut vals: Vec<u64> = Vec::new();
    let mut tp: usize = 0;
    proof {
        match line_values(tokens_from(line@, 0), unit) {
            Ok(vs) => {
                assert(vals@ + vs =~= vs);
            },
            Err(e) => {},
        }
    }
    loop
        invariant
            len == line@.len(),
            tp <= len,
            full == tokens_from(line@, 0),
            line_values(full, unit) == (match line_values(tokens_from(line@, tp as int), unit) {
                Ok(vs) => Ok::<Seq<u64>, Seq<char>>(vals@ + vs),
                Err(e) => Err::<Seq<u64>, Seq<char>>(e),
            }),
        decreases len - tp,
    {
        // skip separators
        let mut a = tp;
        while a < len && sep_char(line.get_char(a))
            invariant
                len == line@.len(),
                tp <= a <= len,
                forall|j: int| tp <= j < a ==> is_space_char(line@[j]),
            decreases len - a,
        {
            a += 1;
        }
        proof {
            lemma_find_non_space_unique(line@, tp as int, a as int);
        }
        if a == len {
            proof {
                assert(tokens_from(line@, tp as int) =~= Seq::<Seq<char>>::empty());
                assert(line_values(tokens_from(line@, tp as int), unit) == Ok::<
                    Seq<u64>,
                    Seq<char>,
                >(Seq::empty()));
                assert(vals@ + Seq::<u64>::empty() =~= vals@);
                assert(line_values(full, unit) == Ok::<Seq<u64>, Seq<char>>(vals@));
            }
            return Ok(vals);
        }
        // take the token
        let mut b = a;
        while b < len && !sep_char(line.get_char(b))
            invariant
                len == line@.len(),
                a <= b <= len,
                forall|j: int| a <= j < b ==> !is_space_char(line@[j]),
            decreases len - b,
        {
            b += 1;
        }
        proof {
            lemma_find_space_unique(line@, a as int, b as int);
        }
        let tok = line.substring_char(a, b);
        let ghost toks_tp = tokens_from(line@, tp as int);
        let ghost toks_b = tokens_from(line@, b as int);
        proof {
            assert(toks_tp == seq![line@.subrange(a as int, b as int)] + toks_b);
            assert(toks_tp[0] == tok@);
            assert(toks_tp.len() > 0);
            assert(toks_tp.skip(1) =~= toks_b);
        }
        match parse_token_nanos(tok, unit) {
            None => {
                proof {
                    assert(token_bad(toks_tp[0], unit));
                    assert(line_values(toks_tp, unit) == Err::<Seq<u64>, Seq<char>>(tok@));
                }
                return Err(tok.to_owned());
            },
            Some(v) => {
                let ghost old_vals = vals@;
                vals.push(v);
                proof {
                    let ghost k = unit.spec_frac_digits();
                    assert(v == token_nanos(toks_tp[0], k));
                    match line_values(toks_b, unit) {
                        Ok(vs) => {
                            assert(line_values(toks_tp, unit) == Ok::<Seq<u64>, Seq<char>>(
                                seq![v] + vs,
                            ));
                            assert(old_vals + (seq![v] + vs) =~= vals@ + vs);
                        },
                        Err(e) => {
                            assert(line_values(toks_tp, unit) == Err::<Seq<u64>, Seq<char>>(e));
                        },
                    }
                }
                tp = b;
            },
        }
    }
}

/// A latency-matrix error: the failing line or token, as the parser saw it.
#[derive(Debug)]
pub enum InvalidLatencyMatrix {
    /// A non-empty line whose token count differs from the first one's.
    InvalidLineDimension { line: usize, dimension: usize, expected: usize },
    /// A token that is not a non-negative decimal numeral whose value fits
    /// whole nanoseconds.
    InvalidLatencyValue { value: String, error: String },
    /// The number of rows differs from the row width.
    NotSquare { rows: usize, expected: usize },
}

/// A square matrix of pairwise latencies, held as whole nanoseconds in
/// row-major order.
#[derive(Debug)]
pub struct LatencyMatrix {
    dimension: usize,
    latencies: Vec<u64>,
}

impl LatencyMatrix {
    /// The matrix is exactly `dimension` by `dimension`.
    #[verifier::type_invariant]
    pub closed spec fn square(self) -> bool {
        self.dimension * self.dimension == self.latencies@.len()
    }

    /// The number of rows (and of columns).
    pub closed spec fn spec_dimension(self) -> nat {
        self.dimension as nat
    }

    /// The latencies in row-major order, in nanoseconds.
    pub closed spec fn spec_nanos(self) -> Seq<u64> {
        self.latencies@
    }

    /// The latency between global indices `row` and `col`, in nanoseconds.
    pub open spec fn spec_latency(self, row: int, col: int) -> u64 {
        self.spec_nanos()[row * self.spec_dimension() + col]
    }

    /// Wraps a row-major value vector as a matrix.
    pub fn new(dimension: usize, latencies: Vec<u64>) -> (r: LatencyMatrix)
        requires
            dimension * dimension == latencies@.len(),
        ensures
            r.spec_dimension() == dimension,
            r.spec_nanos() == latencies@,
    {
        LatencyMatrix { dimension, latencies }
    }

    /// The number of matrix entries: the dimension squared.
    pub fn entry_count(&self) -> (r: usize)
        ensures
            r == self.spec_nanos().len(),
            r == self.spec_dimension() * self.spec_dimension(),
    {
        proof {
            use_type_invariant(self);
        }
        self.latencies.len()
    }

    /// The number of rows (and of columns).
    pub fn dimension(&self) -> (r: usize)
        ensures
            r == self.spec_dimension(),
    {
        self.dimension
    }

    /// The latency between global indices `row` and `col`, in nanoseconds.
    pub fn latency(&self, row: usize, col: usize) -> (r: u64)
        requires
            row < self.spec_dimension(),
            col < self.spec_dimension(),
        ensures
            r == self.spec_latency(row as int, col as int),
    {
        proof {
            use_type_invariant(self);
        }
        let n = self.latencies.len();
        proof {
            assert(row * self.dimension + col < n) by (nonlinear_arith)
                requires
                    row < self.dimension,
                    col < self.dimension,
                    self.dimension * self.dimension == n,
            ;
            assert(self.dimension * row == row * self.dimension) by (nonlinear_arith);
        }
        self.latencies[self.dimension * row + col]
    }
}


/// The dimension recorded so far: zero until a non-empty line was seen.
pub open spec fn spec_dim_or_zero(o: Option<usize>) -> nat {
    match o {
        Some(d) => d as nat,
        None => 0,
    }
}

/// The dimension recorded so far, as the parser threads it.
pub open spec fn spec_dim_opt(o: Option<usize>) -> Option<nat> {
    match o {
        Some(d) => Some(d as nat),
        None => None,
    }
}

impl LatencyMatrix {
    /// Parses whitespace-separated matrix text: one row per non-empty line,
    /// every row as wide as the first, the whole square.
    pub fn parse(content: &str, unit: TimeUnit) -> (r: Result<LatencyMatrix, InvalidLatencyMatrix>)
        ensures
            spec_parse_matrix(content@, unit) matches MatrixParse::Done { dimension, nanos } ==> (
                r matches Ok(m) && m.spec_dimension() == dimension && m.spec_nanos() == nanos),
            spec_parse_matrix(content@, unit) matches MatrixParse::BadToken { token } ==> (
                r matches Err(e) && e matches InvalidLatencyMatrix::InvalidLatencyValue {
                    value,
                    ..
                } && value@ == token),
            spec_parse_matrix(content@, unit) matches MatrixParse::BadWidth {
                line,
                dimension,
                expected,
            } ==> (r matches Err(e) && e matches InvalidLatencyMatrix::InvalidLineDimension {
                line: l,
                dimension: d,
                expected: x,
            } && l == line && d == dimension && x == expected),
            spec_parse_matrix(content@, unit) matches MatrixParse::NotSquare {
                rows,
                expected,
            } ==> (r matches Err(e) && e matches InvalidLatencyMatrix::NotSquare {
                rows: w,
                expected: x,
            } && w == rows && x == expected),
    {
        let len = content.unicode_len();
        let ghost lines = split_lines(content@);
        let mut vals: Vec<u64> = Vec::new();
        let mut dim_opt: Option<usize> = None;
        let mut line_no: usize = 0;
        let mut pos: usize = 0;
        proof {
            assert(content@.subrange(0, len as int) =~= content@);
            assert(lines.skip(0) =~= lines);
        }
        loop
            invariant_except_break
                len == content@.len(),
                pos <= len,
                lines == split_lines(content@),
                line_no < lines.len(),
                line_no <= pos,
                split_lines(content@.subrange(pos as int, len as int)) == lines.skip(
                    line_no as int,
                ),
                parse_lines_from(lines, unit, 0, None, Seq::empty()) == parse_lines_from(
                    lines,
                    unit,
                    line_no as int,
                    spec_dim_opt(dim_opt),
                    vals@,
                ),
                dim_opt is None ==> vals@.len() == 0,
                dim_opt matches Some(d) ==> d > 0,
            ensures
                len == content@.len(),
                lines == split_lines(content@),
                parse_lines_from(lines, unit, 0, None, Seq::empty()) == (MatrixParse::Done {
                    dimension: spec_dim_or_zero(dim_opt),
                    nanos: vals@,
                }),
                dim_opt is None ==> vals@.len() == 0,
                dim_opt matches Some(d) ==> d > 0,
            decreases len - pos,
        {
            // find the end of the current line
            let mut nl = pos;
            while nl < len && content.get_char(nl) != '\n'
                invariant
                    len == content@.len(),
                    pos <= nl <= len,
                    forall|j: int| pos <= j < nl ==> content@[j] != '\n',
                decreases len - nl,
            {
                nl += 1;
            }
            let ghost rem = content@.subrange(pos as int, len as int);
            proof {
                assert forall|j: int| 0 <= j < nl - pos implies rem[j] != '\n' by {
                    assert(rem[j] == content@[pos + j]);
                }
                if nl < len {
                    assert(rem[nl - pos] == content@[nl as int]);
                }
                lemma_find_newline_unique(rem, 0, nl - pos);
            }
            let line = content.substring_char(pos, nl);
            proof {
                assert(line@ == content@.subrange(pos as int, nl as int));
                if nl == len {
                    assert(split_lines(rem) == seq![rem]);
                    assert(rem =~= line@);
                } else {
                    assert(split_lines(rem) == seq![rem.subrange(0, nl - pos)] + split_lines(
                        rem.subrange(nl - pos + 1, rem.len() as int),
                    ));
                    assert(rem.subrange(0, nl - pos) =~= line@);
                    assert(rem.subrange(nl - pos + 1, rem.len() as int) =~= content@.subrange(
                        nl + 1,
                        len as int,
                    ));
                }
                assert(lines.skip(line_no as int)[0] == lines[line_no as int]);
                assert(lines[line_no as int] == line@);
            }
            let ghost toks = tokens_from(line@, 0);
            let res = parse_line_values(line, unit);
            match res {
                Err(b) => {
                    proof {
                        lemma_line_values_len(toks, unit);
                        match line_values(toks, unit) {
                            Ok(vs) => {
                                assert(res matches Ok(v) && v@ == vs);
                                assert(false);
                            },
                            Err(e) => {
                                assert(e == b@);
                            },
                        }
                        assert(toks.len() != 0);
                        assert(parse_lines_from(lines, unit, line_no as int, spec_dim_opt(dim_opt),
                            vals@) == (MatrixParse::BadToken { token: b@ }));
                    }
                    return Err(InvalidLatencyMatrix::InvalidLatencyValue {
                        value: b,
                        error: String::from_str(
                            "not a non-negative decimal number with a nanosecond value in range",
                        ),
                    });
                },
                Ok(mut v) => {
                    proof {
                        lemma_line_values_len(toks, unit);
                        match line_values(toks, unit) {
                            Err(e) => {
                                assert(res matches Err(b) && b@ == e);
                                assert(false);
                            },
                            Ok(vs) => {
                                assert(vs == v@);
                            },
                        }
                        assert(toks.len() == v@.len());
                    }
                    let ghost old_dim = dim_opt;
                    let ghost old_vals = vals@;
                    if v.len() == 0 {
                        proof {
                            assert(parse_lines_from(lines, unit, line_no as int, spec_dim_opt(
                                dim_opt), vals@) == parse_lines_from(lines, unit, line_no + 1,
                                spec_dim_opt(dim_opt), vals@));
                        }
                    } else {
                        match dim_opt {
                            None => {
                                dim_opt = Some(v.len());
                                vals.append(&mut v);
                                proof {
                                    assert(vals@ =~= old_vals + line_values(toks,
                                        unit)->Ok_0);
                                    assert(parse_lines_from(lines, unit, line_no as int,
                                        spec_dim_opt(old_dim), old_vals) == parse_lines_from(
                                        lines, unit, line_no + 1, spec_dim_opt(dim_opt), vals@));
                                }
                            },
                            Some(d) => {
                                if v.len() != d {
                                    proof {
                                        assert(parse_lines_from(lines, unit, line_no as int,
                                            spec_dim_opt(dim_opt), vals@)
                                            == (MatrixParse::BadWidth {
                                            line: line_no as nat,
                                            dimension: toks.len(),
                                            expected: d as nat,
                                        }));
                                    }
                                    return Err(InvalidLatencyMatrix::InvalidLineDimension {
                                        line: line_no,
                                        dimension: v.len(),
                                        expected: d,
                                    });
                                }
                                vals.append(&mut v);
                                proof {
                                    assert(vals@ =~= old_vals + line_values(toks,
                                        unit)->Ok_0);
                                    assert(parse_lines_from(lines, unit, line_no as int,
                                        spec_dim_opt(old_dim), old_vals) == parse_lines_from(
                                        lines, unit, line_no + 1, spec_dim_opt(dim_opt), vals@));
                                }
                            },
                        }
                    }
                    if nl == len {
                        proof {
                            assert(lines.skip(line_no as int).len() == 1);
                            assert(line_no + 1 == lines.len());
                            assert(parse_lines_from(lines, unit, line_no + 1, spec_dim_opt(
                                dim_opt), vals@) == (MatrixParse::Done {
                                dimension: spec_dim_or_zero(dim_opt),
                                nanos: vals@,
                            }));
                        }
                        break;
                    }
                    line_no += 1;
                    pos = nl + 1;
                    proof {
                        assert(lines.skip(line_no as int) =~= lines.skip(line_no - 1).skip(1));
                        assert(split_lines(content@.subrange(pos as int, len as int))
                            == lines.skip(line_no as int));
                    }
                },
            }
        }
        match dim_opt {
            None => {
                proof {
                    assert(vals@.len() == 0);
                    assert(spec_dim_or_zero(dim_opt) == 0);
                    assert(vals@.len() == 0 * 0);
                    assert(spec_parse_matrix(content@, unit) == (MatrixParse::Done {
                        dimension: 0 as nat,
                        nanos: vals@,
                    }));
                }
                Ok(LatencyMatrix::new(0, vals))
            },
            Some(d) => {
                let n = vals.len();
                proof {
                    assert(n / d * d + n % d == n) by (nonlinear_arith)
                        requires
                            d > 0,
                    ;
                    assert(n % d < d) by (nonlinear_arith)
                        requires
                            d > 0,
                    ;
                }
                if n / d == d && n % d == 0 {
                    proof {
                        assert(n == d * d) by (nonlinear_arith)
                            requires
                                d > 0,
                                n / d == d,
                                n % d == 0,
                                n / d * d + n % d == n,
                        ;
                    }
                    Ok(LatencyMatrix::new(d, vals))
                } else {
                    proof {
                        assert(n != d * d) by (nonlinear_arith)
                            requires
                                d > 0,
                                !(n / d == d && n % d == 0),
                                n / d * d + n % d == n,
                                n % d < d,
                        ;
                    }
                    Err(InvalidLatencyMatrix::NotSquare { rows: n / d, expected: d })
                }
            },
        }
    }
}

impl core::str::FromStr for LatencyMatrix {
    type Err = InvalidLatencyMatrix;

    fn from_str(s: &str) -> Result<Self, Self::Err> {
        LatencyMatrix::parse(s, TimeUnit::Milliseconds)
    }
}


/// The millisecond value of entry `i`, for a matrix of whole milliseconds.
pub open spec fn entry_ms(nanos: Seq<u64>, i: int) -> u64 {
    (nanos[i] / 1000000) as u64
}

/// The text of row `r` from column `c` on: millisecond numerals joined by
/// single spaces.
pub open spec fn spec_row_from(nanos: Seq<u64>, d: int, r: int, c: int) -> Seq<char>
    decreases d - c,
{
    if c < 0 || c >= d {
        Seq::empty()
    } else if c == d - 1 {
        dec_digits(entry_ms(nanos, r * d + c) as nat)
    } else {
        dec_digits(entry_ms(nanos, r * d + c) as nat) + seq![' '] + spec_row_from(
            nanos,
            d,
            r,
            c + 1,
        )
    }
}

/// The text of the rows from `r` on, each row ended by a newline.
pub open spec fn spec_matrix_from(nanos: Seq<u64>, d: int, r: int) -> Seq<char>
    decreases d - r,
{
    if r < 0 || r >= d {
        Seq::empty()
    } else {
        spec_row_from(nanos, d, r, 0) + seq!['\n'] + spec_matrix_from(nanos, d, r + 1)
    }
}

/// Digits are neither separators, newlines, dots, signs nor exponent
/// markers.
pub proof fn lemma_digit_not_special(ch: char)
    requires
        is_digit_char(ch),
    ensures
        !is_space_char(ch),
        ch != '\n',
        ch != '.',
        ch != '+',
        ch != '-',
        ch != 'e',
        ch != 'E',
{
}

/// Every character of a row text is a digit or a space; in particular no
/// newline occurs.
pub proof fn lemma_row_chars(nanos: Seq<u64>, d: int, r: int, c: int)
    ensures
        forall|q: int|
            0 <= q < spec_row_from(nanos, d, r, c).len() ==> (is_digit_char(
                #[trigger] spec_row_from(nanos, d, r, c)[q],
            ) || spec_row_from(nanos, d, r, c)[q] == ' '),
    decreases d - c,
{
    if c < 0 || c >= d {
    } else if c == d - 1 {
        crate::text::lemma_dec_digits_val(entry_ms(nanos, r * d + c) as nat);
    } else {
        crate::text::lemma_dec_digits_val(entry_ms(nanos, r * d + c) as nat);
        lemma_row_chars(nanos, d, r, c + 1);
        let tok = dec_digits(entry_ms(nanos, r * d + c) as nat);
        let rest = spec_row_from(nanos, d, r, c + 1);
        assert forall|q: int|
            0 <= q < spec_row_from(nanos, d, r, c).len() implies (is_digit_char(
            #[trigger] spec_row_from(nanos, d, r, c)[q],
        ) || spec_row_from(nanos, d, r, c)[q] == ' ') by {
            if q < tok.len() {
                assert(spec_row_from(nanos, d, r, c)[q] == tok[q]);
            } else if q == tok.len() {
                assert(spec_row_from(nanos, d, r, c)[q] == ' ');
            } else {
                assert(spec_row_from(nanos, d, r, c)[q] == rest[q - tok.len() - 1]);
            }
        }
    }
}

/// Shifting the scan start commutes with dropping a prefix.
pub proof fn lemma_find_non_space_shift(s: Seq<char>, c: int, x: int)
    requires
        0 <= c <= s.len(),
        0 <= x,
    ensures
        find_non_space(s, c + x) == c + find_non_space(s.skip(c), x),
    decreases s.len() - c - x,
{
    assert(s.skip(c).len() == s.len() - c);
    if c + x < s.len() {
        assert(s.skip(c)[x] == s[c + x]);
        if is_space_char(s[c + x]) {
            lemma_find_non_space_shift(s, c, x + 1);
        } else {
            assert(find_non_space(s, c + x) == c + x);
            assert(find_non_space(s.skip(c), x) == x);
        }
    } else {
        assert(find_non_space(s, c + x) == s.len());
        assert(find_non_space(s.skip(c), x) == s.skip(c).len());
    }
}

/// Shifting the scan start commutes with dropping a prefix.
pub proof fn lemma_find_space_shift(s: Seq<char>, c: int, x: int)
    requires
        0 <= c <= s.len(),
        0 <= x,
    ensures
        find_space(s, c + x) == c + find_space(s.skip(c), x),
    decreases s.len() - c - x,
{
    assert(s.skip(c).len() == s.len() - c);
    if c + x < s.len() {
        assert(s.skip(c)[x] == s[c + x]);
        if !is_space_char(s[c + x]) {
            lemma_find_space_shift(s, c, x + 1);
        } else {
            assert(find_space(s, c + x) == c + x);
            assert(find_space(s.skip(c), x) == x);
        }
    } else {
        assert(find_space(s, c + x) == s.len());
        assert(find_space(s.skip(c), x) == s.skip(c).len());
    }
}

/// Tokenisation from a position equals tokenisation of the suffix.
pub proof fn lemma_tokens_shift(s: Seq<char>, c: int)
    requires
        0 <= c <= s.len(),
    ensures
        tokens_from(s, c) == tokens_from(s.skip(c), 0),
    decreases s.len() - c,
{
    lemma_find_non_space_shift(s, c, 0);
    let sk = s.skip(c);
    let a2 = find_non_space(sk, 0);
    let a = find_non_space(s, c);
    assert(a == c + a2);
    lemma_find_non_space(s, c);
    lemma_find_non_space(sk, 0);
    if a >= s.len() {
        assert(a2 >= sk.len());
    } else {
        lemma_find_space_shift(s, c, a2);
        let b2 = find_space(sk, a2);
        let b = find_space(s, a);
        assert(b == c + b2);
        lemma_find_space(s, a);
        lemma_find_space(sk, a2);
        assert(s.subrange(a, b) =~= sk.subrange(a2, b2));
        lemma_tokens_shift(s, b);
        assert(s.skip(b) =~= sk.skip(b2));
        lemma_tokens_shift(sk, b2);
        assert(tokens_from(sk, b2) == tokens_from(sk.skip(b2), 0));
    }
}

/// The tokens of a row text are exactly the numerals of its entries.
pub proof fn lemma_row_tokens(nanos: Seq<u64>, d: int, r: int, c: int)
    requires
        0 <= c < d,
    ensures
        tokens_from(spec_row_from(nanos, d, r, c), 0) == Seq::new(
            (d - c) as nat,
            |i: int| dec_digits(entry_ms(nanos, r * d + c + i) as nat),
        ),
    decreases d - c,
{
    let row = spec_row_from(nanos, d, r, c);
    let tok = dec_digits(entry_ms(nanos, r * d + c) as nat);
    crate::text::lemma_dec_digits_val(entry_ms(nanos, r * d + c) as nat);
    assert(forall|q: int| 0 <= q < tok.len() ==> !is_space_char(#[trigger] tok[q])) by {
        assert forall|q: int| 0 <= q < tok.len() implies !is_space_char(#[trigger] tok[q]) by {
            lemma_digit_not_special(tok[q]);
        }
    }
    if c == d - 1 {
        assert(row == tok);
        lemma_find_non_space_unique(row, 0, 0);
        lemma_find_space_unique(row, 0, row.len() as int);
        assert(tokens_from(row, 0) == seq![row.subrange(0, row.len() as int)] + tokens_from(
            row,
            row.len() as int,
        ));
        lemma_find_non_space_unique(row, row.len() as int, row.len() as int);
        assert(tokens_from(row, row.len() as int) =~= Seq::<Seq<char>>::empty());
        assert(row.subrange(0, row.len() as int) =~= tok);
        assert(tokens_from(row, 0) =~= Seq::new(
            (d - c) as nat,
            |i: int| dec_digits(entry_ms(nanos, r * d + c + i) as nat),
        ));
    } else {
        let rest = spec_row_from(nanos, d, r, c + 1);
        assert(row == tok + seq![' '] + rest);
        assert(row.len() == tok.len() + 1 + rest.len());
        assert(row[tok.len() as int] == ' ');
        assert(forall|q: int| 0 <= q < tok.len() ==> row[q] == tok[q]);
        lemma_find_non_space_unique(row, 0, 0);
        lemma_find_space_unique(row, 0, tok.len() as int);
        assert(tokens_from(row, 0) == seq![row.subrange(0, tok.len() as int)] + tokens_from(
            row,
            tok.len() as int,
        ));
        assert(row.subrange(0, tok.len() as int) =~= tok);
        // one separator, then the rest of the row
        assert(find_non_space(row, tok.len() as int) == find_non_space(
            row,
            tok.len() as int + 1,
        ));
        assert(tokens_from(row, tok.len() as int) == tokens_from(row, tok.len() as int + 1));
        lemma_tokens_shift(row, tok.len() as int + 1);
        assert(row.skip(tok.len() as int + 1) =~= rest);
        lemma_row_tokens(nanos, d, r, c + 1);
        assert(tokens_from(row, 0) =~= Seq::new(
            (d - c) as nat,
            |i: int| dec_digits(entry_ms(nanos, r * d + c + i) as nat),
        ));
    }
}


/// Splitting after a newline-free prefix peels one line off.
pub proof fn lemma_split_prepend(a: Seq<char>, b: Seq<char>)
    requires
        forall|q: int| 0 <= q < a.len() ==> a[q] != '\n',
    ensures
        split_lines(a + seq!['\n'] + b) == seq![a] + split_lines(b),
{
    let s = a + seq!['\n'] + b;
    assert(s[a.len() as int] == '\n');
    assert(forall|q: int| 0 <= q < a.len() ==> s[q] == a[q]);
    lemma_find_newline_unique(s, 0, a.len() as int);
    assert(s.subrange(0, a.len() as int) =~= a);
    assert(s.subrange(a.len() as int + 1, s.len() as int) =~= b);
}

/// The lines of the matrix text from row `r` on: the row texts, then the
/// empty line the final newline leaves.
pub proof fn lemma_matrix_lines(nanos: Seq<u64>, d: int, r: int)
    requires
        0 <= r < d,
    ensures
        split_lines(spec_matrix_from(nanos, d, r)) == Seq::new(
            (d - r) as nat,
            |i: int| spec_row_from(nanos, d, r + i, 0),
        ).push(Seq::<char>::empty()),
    decreases d - r,
{
    let row = spec_row_from(nanos, d, r, 0);
    lemma_row_chars(nanos, d, r, 0);
    assert(forall|q: int| 0 <= q < row.len() ==> row[q] != '\n') by {
        assert forall|q: int| 0 <= q < row.len() implies row[q] != '\n' by {
            if is_digit_char(row[q]) {
                lemma_digit_not_special(row[q]);
            }
        }
    }
    lemma_split_prepend(row, spec_matrix_from(nanos, d, r + 1));
    if r + 1 < d {
        lemma_matrix_lines(nanos, d, r + 1);
        assert(seq![row] + Seq::new((d - r - 1) as nat, |i: int| spec_row_from(nanos, d, r + 1
            + i, 0)).push(Seq::<char>::empty()) =~= Seq::new(
            (d - r) as nat,
            |i: int| spec_row_from(nanos, d, r + i, 0),
        ).push(Seq::<char>::empty()));
    } else {
        assert(spec_matrix_from(nanos, d, r + 1) =~= Seq::<char>::empty());
        lemma_find_newline_unique(Seq::<char>::empty(), 0, 0);
        assert(split_lines(Seq::<char>::empty()) =~= seq![Seq::<char>::empty()]);
        assert(seq![row] + seq![Seq::<char>::empty()] =~= Seq::new(
            (d - r) as nat,
            |i: int| spec_row_from(nanos, d, r + i, 0),
        ).push(Seq::<char>::empty()));
    }
}

/// A whole-millisecond numeral token is accepted and worth its entry.
pub proof fn lemma_dec_token_value(v: u64)
    requires
        v * 1000000 <= u64::MAX,
    ensures
        !token_bad(dec_digits(v as nat), TimeUnit::Milliseconds),
        token_nanos(dec_digits(v as nat), 6) == v * 1000000,
{
    let tok = dec_digits(v as nat);
    crate::text::lemma_dec_digits_val(v as nat);
    assert(forall|q: int|
        0 <= q < tok.len() ==> (tok[q] != '.' && tok[q] != '+' && tok[q] != 'e' && tok[q]
            != 'E')) by {
        assert forall|q: int|
            0 <= q < tok.len() implies (tok[q] != '.' && tok[q] != '+' && tok[q] != 'e' && tok[q]
            != 'E') by {
            lemma_digit_not_special(tok[q]);
        }
    }
    assert(token_start(tok) == 0);
    lemma_find_exp_unique(tok, 0, tok.len() as int);
    assert(mant_of(tok) =~= tok);
    lemma_find_dot_unique(tok, 0, tok.len() as int);
    assert(mant_ipart(tok) =~= tok);
    assert(mant_fpart(tok) =~= Seq::<char>::empty());
    assert(mant_ok(mant_of(tok)));
    assert(!has_exp(tok));
    assert(token_grammar_ok(tok));
    assert(token_digits(tok) =~= tok);
    assert(token_exp(tok) == 0);
    lemma_pow10_values();
    assert(token_nanos(tok, 6) == digits_val(tok) * pow10(6));
}

/// A row of whole-millisecond numerals parses to its nanosecond entries.
pub proof fn lemma_line_values_row(nanos: Seq<u64>, d: int, r: int, c: int)
    requires
        0 <= c < d,
        0 <= r,
        (r + 1) * d <= nanos.len(),
        forall|i: int| 0 <= i < nanos.len() ==> (#[trigger] nanos[i]) % 1000000 == 0,
    ensures
        line_values(
            Seq::new((d - c) as nat, |i: int| dec_digits(entry_ms(nanos, r * d + c + i) as nat)),
            TimeUnit::Milliseconds,
        ) == Ok::<Seq<u64>, Seq<char>>(Seq::new((d - c) as nat, |i: int| nanos[r * d + c + i])),
    decreases d - c,
{
    let toks = Seq::new((d - c) as nat, |i: int| dec_digits(entry_ms(nanos, r * d + c + i) as nat));
    let idx = r * d + c;
    assert(0 <= idx < nanos.len()) by (nonlinear_arith)
        requires
            0 <= c < d,
            0 <= r,
            (r + 1) * d <= nanos.len(),
            idx == r * d + c,
    ;
    let v = entry_ms(nanos, idx);
    assert(v * 1000000 == nanos[idx]) by (nonlinear_arith)
        requires
            nanos[idx] % 1000000 == 0,
            v == nanos[idx] / 1000000,
    ;
    lemma_dec_token_value(v);
    assert(toks[0] == dec_digits(v as nat));
    assert(!token_bad(toks[0], TimeUnit::Milliseconds));
    assert(token_nanos(toks[0], 6) == nanos[idx]);
    if c == d - 1 {
        assert(toks.skip(1) =~= Seq::<Seq<char>>::empty());
        assert(line_values(toks.skip(1), TimeUnit::Milliseconds) == Ok::<Seq<u64>, Seq<char>>(
            Seq::empty(),
        ));
        assert(seq![nanos[idx]] + Seq::<u64>::empty() =~= Seq::new(
            (d - c) as nat,
            |i: int| nanos[r * d + c + i],
        ));
    } else {
        lemma_line_values_row(nanos, d, r, c + 1);
        assert(toks.skip(1) =~= Seq::new(
            (d - c - 1) as nat,
            |i: int| dec_digits(entry_ms(nanos, r * d + c + 1 + i) as nat),
        ));
        assert(seq![nanos[idx]] + Seq::new((d - c - 1) as nat, |i: int| nanos[r * d + c + 1 + i])
            =~= Seq::new((d - c) as nat, |i: int| nanos[r * d + c + i]));
    }
}

/// Folding the remaining rows of a whole-millisecond matrix extends the
/// gathered values to the full sequence.
pub proof fn lemma_parse_rows(nanos: Seq<u64>, d: int, lines: Seq<Seq<char>>, r: int)
    requires
        1 <= d,
        1 <= r <= d,
        nanos.len() == d * d,
        forall|i: int| 0 <= i < nanos.len() ==> (#[trigger] nanos[i]) % 1000000 == 0,
        lines == Seq::new(d as nat, |i: int| spec_row_from(nanos, d, i, 0)).push(
            Seq::<char>::empty(),
        ),
    ensures
        parse_lines_from(lines, TimeUnit::Milliseconds, r, Some(d as nat), nanos.subrange(0, r
            * d)) == (MatrixParse::Done { dimension: d as nat, nanos: nanos }),
    decreases d - r,
{
    if r == d {
        // the final empty line is skipped and the fold closes
        let acc = nanos.subrange(0, r * d);
        assert(lines[d] == Seq::<char>::empty());
        lemma_find_non_space_unique(lines[d], 0, 0);
        assert(tokens_from(lines[d], 0) =~= Seq::<Seq<char>>::empty());
        assert(parse_lines_from(lines, TimeUnit::Milliseconds, d, Some(d as nat), acc)
            == parse_lines_from(lines, TimeUnit::Milliseconds, d + 1, Some(d as nat), acc));
        assert(parse_lines_from(lines, TimeUnit::Milliseconds, d + 1, Some(d as nat), acc)
            == (MatrixParse::Done { dimension: d as nat, nanos: acc }));
        assert(acc =~= nanos);
    } else {
        assert(lines[r] == spec_row_from(nanos, d, r, 0));
        lemma_row_tokens(nanos, d, r, 0);
        let toks = tokens_from(lines[r], 0);
        assert(toks.len() == d);
        assert((r + 1) * d <= nanos.len()) by (nonlinear_arith)
            requires
                1 <= r + 1 <= d,
                nanos.len() == d * d,
        ;
        lemma_line_values_row(nanos, d, r, 0);
        assert(line_values(toks, TimeUnit::Milliseconds) == Ok::<Seq<u64>, Seq<char>>(
            Seq::new(d as nat, |i: int| nanos[r * d + i]),
        ));
        assert(nanos.subrange(0, r * d) + Seq::new(d as nat, |i: int| nanos[r * d + i])
            =~= nanos.subrange(0, (r + 1) * d)) by {
            assert((r + 1) * d == r * d + d) by (nonlinear_arith);
            assert(0 <= r * d) by (nonlinear_arith)
                requires
                    0 <= r,
                    0 <= d,
            ;
        }
        assert(parse_lines_from(lines, TimeUnit::Milliseconds, r, Some(d as nat),
            nanos.subrange(0, r * d)) == parse_lines_from(lines, TimeUnit::Milliseconds, r + 1,
            Some(d as nat), nanos.subrange(0, r * d) + Seq::new(
            d as nat,
            |i: int| nanos[r * d + i],
        )));
        lemma_parse_rows(nanos, d, lines, r + 1);
    }
}

impl LatencyMatrix {
    /// Renders the matrix as rows of whole-millisecond values, one row per
    /// line, values space-separated: the text re-parses to this very
    /// matrix.
    pub fn format_millis(&self) -> (s: String)
        requires
            forall|i: int|
                0 <= i < self.spec_nanos().len() ==> (#[trigger] self.spec_nanos()[i]) % 1000000
                    == 0,
        ensures
            spec_parse_matrix(s@, TimeUnit::Milliseconds) == (MatrixParse::Done {
                dimension: self.spec_dimension(),
                nanos: self.spec_nanos(),
            }),
    {
        proof {
            use_type_invariant(self);
        }
        let d = self.dimension();
        let ghost nanos = self.spec_nanos();
        if d == 0 {
            let s = String::new();
            proof {
                use_type_invariant(self);
                assert(self.dimension * self.dimension == self.latencies@.len());
                assert(self.dimension == 0);
                assert(self.latencies@.len() == 0) by (nonlinear_arith)
                    requires
                        self.dimension == 0,
                        self.dimension * self.dimension == self.latencies@.len(),
                ;
                assert(nanos == self.latencies@);
                assert(nanos =~= Seq::<u64>::empty());
                lemma_find_newline_unique(s@, 0, 0);
                assert(split_lines(s@) =~= seq![Seq::<char>::empty()]);
                let lines = split_lines(s@);
                lemma_find_non_space_unique(lines[0], 0, 0);
                assert(tokens_from(lines[0], 0) =~= Seq::<Seq<char>>::empty());
                assert(parse_lines_from(lines, TimeUnit::Milliseconds, 0, None, Seq::empty())
                    == parse_lines_from(lines, TimeUnit::Milliseconds, 1, None, Seq::empty()));
                assert(parse_lines_from(lines, TimeUnit::Milliseconds, 1, None, Seq::empty())
                    == (MatrixParse::Done { dimension: 0 as nat, nanos: Seq::empty() }));
            }
            return s;
        }
        let mut s = String::new();
        append_matrix_from(&mut s, self, 0);
        proof {
            assert(s@ =~= spec_matrix_from(nanos, d as int, 0));
            lemma_matrix_lines(nanos, d as int, 0);
            let lines = split_lines(s@);
            assert(lines =~= Seq::new(d as nat, |i: int| spec_row_from(nanos, d as int, i, 0))
                .push(Seq::<char>::empty()));
            // the first row fixes the width, the rest follow
            assert(lines[0] == spec_row_from(nanos, d as int, 0, 0));
            lemma_row_tokens(nanos, d as int, 0, 0);
            assert(1 * (d as int) <= nanos.len()) by (nonlinear_arith)
                requires
                    1 <= d,
                    nanos.len() == (d as int) * (d as int),
            ;
            lemma_line_values_row(nanos, d as int, 0, 0);
            let toks0 = tokens_from(lines[0], 0);
            assert(toks0.len() == d);
            let row0 = Seq::new(d as nat, |i: int| nanos[0 * (d as int) + i]);
            assert(line_values(toks0, TimeUnit::Milliseconds) == Ok::<Seq<u64>, Seq<char>>(row0));
            assert(parse_lines_from(lines, TimeUnit::Milliseconds, 0, None, Seq::empty())
                == parse_lines_from(lines, TimeUnit::Milliseconds, 1, Some(d as nat),
                Seq::<u64>::empty() + row0));
            assert(Seq::<u64>::empty() + row0 =~= nanos.subrange(0, 1 * (d as int)));
            lemma_parse_rows(nanos, d as int, lines, 1);
            assert(parse_lines_from(lines, TimeUnit::Milliseconds, 0, None, Seq::empty())
                == (MatrixParse::Done { dimension: d as nat, nanos: nanos }));
        }
        s
    }
}

/// Appends the text of row `r` from column `c` on.
#[verifier::loop_isolation(false)]
fn append_row_from(s: &mut String, m: &LatencyMatrix, r: usize, c: usize)
    requires
        r < m.spec_dimension(),
        c < m.spec_dimension(),
    ensures
        final(s)@ == old(s)@ + spec_row_from(
            m.spec_nanos(),
            m.spec_dimension() as int,
            r as int,
            c as int,
        ),
    decreases m.spec_dimension() - c,
{
    let d = m.dimension();
    let lat = m.latency(r, c);
    let ms = lat / 1000000;
    proof {
        assert(ms == entry_ms(m.spec_nanos(), r as int * d as int + c as int));
    }
    crate::text::append_dec_u64(s, ms);
    if c < d - 1 {
        s.append(" ");
        proof {
            reveal_strlit(" ");
        }
        append_row_from(s, m, r, c + 1);
        proof {
            assert(s@ =~= old(s)@ + spec_row_from(m.spec_nanos(), d as int, r as int, c as int));
        }
    } else {
        proof {
            assert(s@ =~= old(s)@ + spec_row_from(m.spec_nanos(), d as int, r as int, c as int));
        }
    }
}

/// Appends the text of the rows from `r` on, each ended by a newline.
#[verifier::loop_isolation(false)]
fn append_matrix_from(s: &mut String, m: &LatencyMatrix, r: usize)
    requires
        r <= m.spec_dimension(),
        m.spec_dimension() >= 1,
    ensures
        final(s)@ == old(s)@ + spec_matrix_from(
            m.spec_nanos(),
            m.spec_dimension() as int,
            r as int,
        ),
    decreases m.spec_dimension() - r,
{
    let d = m.dimension();
    if r == d {
        proof {
            assert(spec_matrix_from(m.spec_nanos(), d as int, r as int) =~= Seq::<char>::empty());
            assert(s@ =~= old(s)@ + spec_matrix_from(m.spec_nanos(), d as int, r as int));
        }
        return ;
    }
    append_row_from(s, m, r, 0);
    s.append("\n");
    proof {
        reveal_strlit("\n");
    }
    append_matrix_from(s, m, r + 1);
    proof {
        assert(s@ =~= old(s)@ + spec_matrix_from(m.spec_nanos(), d as int, r as int));
    }
}

} // verus!
