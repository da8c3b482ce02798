use vstd::prelude::*;
use vstd::string::*;

use crate::text::{
    digits_value, is_digit, lemma_digits_prefix_le, lemma_digits_step,
    lemma_digits_zero_tail, read_digits,
};

verus! {

/// Which way a threshold is compared.
#[derive(Clone, Copy, Debug, PartialEq, Eq, Structural)]
pub enum Comparison {
    Less,
    Greater,
}

/// When an effect applies. Thresholds are fixed-point values (see
/// `fixed_point::ONE`).
#[derive(Debug)]
pub enum Condition {
    /// No condition: the effect always applies.
    Always,
    /// Applies while the named modifier is active.
    HasModifier(String),
    /// Applies while a trial runs and its bot mass compares so with the threshold.
    TrialMass(Comparison, u128),
    /// Applies while the population unease compares so with the threshold.
    Unease(Comparison, u128),
    /// Text in no known form: never applies.
    Unrecognized,
}

/// A condition with its modifier name as characters.
pub enum ConditionView {
    Always,
    HasModifier(Seq<char>),
    TrialMass(Comparison, u128),
    Unease(Comparison, u128),
    Unrecognized,
}

impl View for Condition {
    type V = ConditionView;

    open spec fn view(&self) -> ConditionView {
        match self {
            Condition::Always => ConditionView::Always,
            Condition::HasModifier(m) => ConditionView::HasModifier(m@),
            Condition::TrialMass(c, t) => ConditionView::TrialMass(*c, *t),
            Condition::Unease(c, t) => ConditionView::Unease(*c, *t),
            Condition::Unrecognized => ConditionView::Unrecognized,
        }
    }
}

/// Why condition text could not be read.
#[derive(Clone, Copy, Debug, PartialEq, Eq, Structural)]
pub enum ConditionError {
    /// The threshold is beyond what a fixed-point value holds.
    OperandOutOfRange,
    /// A comparison is not followed by a number.
    OperandUnparseable,
}

/// The largest exponent that a threshold may carry.
pub const MAX_EXPONENT: u64 = 4294967295;

/// The decimal places of a fixed-point value.
pub const FRACTION_DIGITS: u64 = 6;

/// Whether `p` occurs in `s` at `at`.
pub open spec fn occurs_at(s: Seq<char>, at: int, p: Seq<char>) -> bool {
    0 <= at && at + p.len() <= s.len() && s.subrange(at, at + p.len()) == p
}

/// The end of the digit run of `s` that starts at `i`.
pub open spec fn run_end(s: Seq<char>, i: int) -> int
    decreases s.len() - i,
{
    if 0 <= i < s.len() && is_digit(s[i]) {
        run_end(s, i + 1)
    } else {
        i
    }
}

/// The parts of the longest number `D+(.D+)?(eD+)?` that starts in `s` at
/// `p`: the end of the whole part, the bounds of the fraction and of the
/// exponent (empty where absent). `None` where no digit stands at `p`.
pub open spec fn number_parts(s: Seq<char>, p: int) -> Option<(int, int, int, int, int)> {
    let a = run_end(s, p);
    let dot = a < s.len() && s[a] == '.' && run_end(s, a + 1) > a + 1;
    let fe = if dot { run_end(s, a + 1) } else { a };
    let fs = if dot { a + 1 } else { a };
    let exp = fe < s.len() && s[fe] == 'e' && run_end(s, fe + 1) > fe + 1;
    if a == p {
        None
    } else if exp {
        Some((a, fs, fe, fe + 1, run_end(s, fe + 1)))
    } else {
        Some((a, fs, fe, fe, fe))
    }
}

/// The digits of a number shifted `k` places left: its whole part, then the
/// first `k` digits of its fraction, padded with zeros.
pub open spec fn shifted_digits(whole: Seq<char>, frac: Seq<char>, k: nat) -> Seq<char> {
    whole + Seq::new(k, |j: int| if j < frac.len() { frac[j] } else { '0' })
}

/// The fixed-point value of the number with these parts, rounded down: its
/// digits shifted left by the exponent and by the fixed-point places.
pub open spec fn parts_value(s: Seq<char>, p: int, parts: (int, int, int, int, int)) -> nat {
    let (a, fs, fe, es, ee) = parts;
    let e = digits_value(s.subrange(es, ee));
    digits_value(shifted_digits(s.subrange(p, a), s.subrange(fs, fe), e + FRACTION_DIGITS as nat))
}

/// The threshold that starts in `s` at `p`; what follows the number is
/// passed over. `None` where there is no number there.
pub open spec fn threshold_at(s: Seq<char>, p: int) -> Option<Result<u128, ConditionError>> {
    match number_parts(s, p) {
        None => None,
        Some(parts) => {
            let (a, fs, fe, es, ee) = parts;
            let e = digits_value(s.subrange(es, ee));
            if e > MAX_EXPONENT || parts_value(s, p, parts) > u128::MAX {
                Some(Err(ConditionError::OperandOutOfRange))
            } else {
                Some(Ok(parts_value(s, p, parts) as u128))
            }
        },
    }
}

/// A comparison and its threshold starting in `s` at `p`; `None` where no
/// comparison stands there.
pub open spec fn comparison_at(s: Seq<char>, p: int) -> Option<Result<(Comparison, u128), ConditionError>> {
    let (c, q) = if occurs_at(s, p, "less than "@) {
        (Some(Comparison::Less), p + "less than "@.len())
    } else if occurs_at(s, p, "greater than "@) {
        (Some(Comparison::Greater), p + "greater than "@.len())
    } else {
        (None, p)
    };
    match c {
        None => None,
        Some(c) => match threshold_at(s, q) {
            None => Some(Err(ConditionError::OperandUnparseable)),
            Some(Err(e)) => Some(Err(e)),
            Some(Ok(t)) => Some(Ok((c, t))),
        },
    }
}

/// The first position at or after `i` where `form` occurs in `s` followed
/// by a comparison.
pub open spec fn first_form(s: Seq<char>, form: Seq<char>, i: int) -> Option<int>
    decreases s.len() + 1 - i,
{
    if i < 0 || i > s.len() {
        None
    } else if occurs_at(s, i, form) && comparison_at(s, i + form.len()) is Some {
        Some(i)
    } else {
        first_form(s, form, i + 1)
    }
}

/// The comparison after the first occurrence in `s` of `form` that a
/// comparison follows.
pub open spec fn form_in(s: Seq<char>, form: Seq<char>) -> Option<Result<(Comparison, u128), ConditionError>> {
    match first_form(s, form, 0) {
        None => None,
        Some(i) => comparison_at(s, i + form.len()),
    }
}

/// What condition text means.
pub open spec fn condition_of(s: Seq<char>) -> Result<ConditionView, ConditionError> {
    let hm = "has modifier "@;
    let tm = "trial bot mass "@;
    let pu = "population unease "@;
    if s.len() == 0 {
        Ok(ConditionView::Always)
    } else if occurs_at(s, 0, hm) && !s.subrange(hm.len() as int, s.len() as int).contains('\n') {
        Ok(ConditionView::HasModifier(s.subrange(hm.len() as int, s.len() as int)))
    } else if form_in(s, tm) is Some {
        match form_in(s, tm) {
            Some(Ok((c, t))) => Ok(ConditionView::TrialMass(c, t)),
            Some(Err(e)) => Err(e),
            None => Ok(ConditionView::Unrecognized),
        }
    } else if form_in(s, pu) is Some {
        match form_in(s, pu) {
            Some(Ok((c, t))) => Ok(ConditionView::Unease(c, t)),
            Some(Err(e)) => Err(e),
            None => Ok(ConditionView::Unrecognized),
        }
    } else {
        Ok(ConditionView::Unrecognized)
    }
}

/// The view of a parse result.
pub open spec fn parsed_view(r: Result<Condition, ConditionError>) -> Result<ConditionView, ConditionError> {
    match r {
        Ok(c) => Ok(c@),
        Err(e) => Err(e),
    }
}

/// Whether `p` occurs in `s` at `at`.
fn occurs(s: &str, at: usize, p: &str) -> (r: bool)
    requires
        at <= s@.len(),
    ensures
        r == occurs_at(s@, at as int, p@),
        s@.len() <= usize::MAX,
{
    let n = s.unicode_len();
    let m = p.unicode_len();
    if m > n - at {
        return false;
    }
    let mut j: usize = 0;
    while j < m
        invariant
            n == s@.len(),
            m == p@.len(),
            at + m <= n,
            j <= m,
            forall|k: int| 0 <= k < j ==> s@[at + k] == p@[k],
        decreases m - j,
    {
        if s.get_char(at + j) != p.get_char(j) {
            assert(s@.subrange(at as int, at + m)[j as int] != p@[j as int]);
            return false;
        }
        j = j + 1;
    }
    assert(s@.subrange(at as int, at + m) =~= p@);
    true
}

/// The end of the digit run of `s` that starts at `i`.
fn digit_run_end(s: &str, i: usize) -> (r: usize)
    requires
        i <= s@.len(),
    ensures
        r == run_end(s@, i as int),
        i <= r <= s@.len(),
        forall|k: int| i <= k < r ==> is_digit(#[trigger] s@[k]),
{
    let n = s.unicode_len();
    let mut j: usize = i;
    while j < n
        invariant
            n == s@.len(),
            i <= j <= n,
            run_end(s@, i as int) == run_end(s@, j as int),
            forall|k: int| i <= k < j ==> is_digit(#[trigger] s@[k]),
        decreases n - j,
    {
        let c = s.get_char(j);
        if !('0' <= c && c <= '9') {
            return j;
        }
        j = j + 1;
    }
    j
}

/// The fixed-point value of a number whose whole part is `s[p..a]` and whose
/// fraction is `s[fs..fe]`, shifted `k` places; `None` where it exceeds `u128`.
fn shifted_fixed(s: &str, p: usize, a: usize, fs: usize, fe: usize, k: u64) -> (r: Option<u128>)
    requires
        p <= a <= s@.len(),
        fs <= fe <= s@.len(),
        forall|j: int| p <= j < a ==> is_digit(#[trigger] s@[j]),
        forall|j: int| fs <= j < fe ==> is_digit(#[trigger] s@[j]),
        k <= MAX_EXPONENT + FRACTION_DIGITS,
    ensures
        ({
            let v = digits_value(shifted_digits(s@.subrange(p as int, a as int), s@.subrange(fs as int, fe as int), k as nat));
            r == if v <= u128::MAX { Some(v as u128) } else { None }
        }),
{
    let ghost w = s@.subrange(p as int, a as int);
    let ghost f = s@.subrange(fs as int, fe as int);
    let ghost t = shifted_digits(w, f, k as nat);
    let wl: u128 = (a - p) as u128;
    let fl: u128 = (fe - fs) as u128;
    let total: u128 = wl + k as u128;
    let mut q: u128 = 0;
    let mut acc: u128 = 0;
    assert(t.subrange(0, 0) =~= Seq::<char>::empty());
    assert(t.len() == total);
    while q < total
        invariant
            q <= total,
            t.len() == total,
            total == wl + k,
            wl == a - p,
            fl == fe - fs,
            p <= a <= s@.len(),
            fs <= fe <= s@.len(),
            w == s@.subrange(p as int, a as int),
            f == s@.subrange(fs as int, fe as int),
            t == shifted_digits(w, f, k as nat),
            forall|j: int| p <= j < a ==> is_digit(#[trigger] s@[j]),
            forall|j: int| fs <= j < fe ==> is_digit(#[trigger] s@[j]),
            acc == digits_value(t.subrange(0, q as int)),
        decreases total - q,
    {
        if q >= wl + fl && acc == 0 {
            proof {
                assert forall|j: int| q <= j < t.len() implies t[j] == '0' by {}
                lemma_digits_zero_tail(t, q as int);
            }
            return Some(0);
        }
        let c: char = if q < wl {
            s.get_char(p + q as usize)
        } else if q - wl < fl {
            s.get_char(fs + (q - wl) as usize)
        } else {
            '0'
        };
        assert(t[q as int] == c);
        assert(is_digit(c));
        let d: u128 = ((c as u32) - ('0' as u32)) as u128;
        proof {
            lemma_digits_step(t, q as int);
        }
        if acc > (u128::MAX - d) / 10 {
            proof {
                assert(acc * 10 + d > u128::MAX) by (nonlinear_arith)
                    requires acc > (u128::MAX - d) / 10, d <= 9;
                lemma_digits_prefix_le(t, q + 1);
            }
            return None;
        }
        proof {
            assert(acc * 10 + d <= u128::MAX) by (nonlinear_arith)
                requires acc <= (u128::MAX - d) / 10, d <= 9;
        }
        acc = acc * 10 + d;
        q = q + 1;
    }
    assert(t.subrange(0, total as int) =~= t);
    Some(acc)
}

/// Reads the threshold that starts in `s` at `p`.
fn parse_threshold(s: &str, p: usize) -> (r: Option<Result<u128, ConditionError>>)
    requires
        p <= s@.len(),
    ensures
        r == threshold_at(s@, p as int),
{
    let n = s.unicode_len();
    let a = digit_run_end(s, p);
    if a == p {
        return None;
    }
    let mut fs: usize = a;
    let mut fe: usize = a;
    if a < n && s.get_char(a) == '.' {
        let x = digit_run_end(s, a + 1);
        if x > a + 1 {
            fs = a + 1;
            fe = x;
        }
    }
    let mut es: usize = fe;
    let mut ee: usize = fe;
    if fe < n && s.get_char(fe) == 'e' {
        let x = digit_run_end(s, fe + 1);
        if x > fe + 1 {
            es = fe + 1;
            ee = x;
        }
    }
    let ghost parts = (a as int, fs as int, fe as int, es as int, ee as int);
    assert(number_parts(s@, p as int) == Some(parts));
    assert(es == ee ==> s@.subrange(es as int, ee as int) =~= Seq::<char>::empty());
    match read_digits(s, es, ee, MAX_EXPONENT as u128) {
        None => Some(Err(ConditionError::OperandOutOfRange)),
        Some(e) => {
            match shifted_fixed(s, p, a, fs, fe, e as u64 + FRACTION_DIGITS) {
                None => Some(Err(ConditionError::OperandOutOfRange)),
                Some(v) => Some(Ok(v)),
            }
        },
    }
}

/// Reads `less than N` or `greater than N` filling `s` from `p`.
fn parse_comparison(s: &str, p: usize) -> (r: Option<Result<(Comparison, u128), ConditionError>>)
    requires
        p <= s@.len(),
    ensures
        r == comparison_at(s@, p as int),
{
    let lt = "less than ";
    let gt = "greater than ";
    let c: Comparison;
    let q: usize;
    if occurs(s, p, lt) {
        c = Comparison::Less;
        q = p + lt.unicode_len();
    } else if occurs(s, p, gt) {
        c = Comparison::Greater;
        q = p + gt.unicode_len();
    } else {
        return None;
    }
    match parse_threshold(s, q) {
        None => Some(Err(ConditionError::OperandUnparseable)),
        Some(Err(e)) => Some(Err(e)),
        Some(Ok(t)) => Some(Ok((c, t))),
    }
}

/// Whether `s` holds a line break from `from` on.
fn has_line_break(s: &str, from: usize) -> (r: bool)
    requires
        from <= s@.len(),
    ensures
        r == s@.subrange(from as int, s@.len() as int).contains('\n'),
{
    let n = s.unicode_len();
    let mut j: usize = from;
    while j < n
        invariant
            n == s@.len(),
            from <= j <= n,
            forall|k: int| from <= k < j ==> s@[k] != '\n',
        decreases n - j,
    {
        if s.get_char(j) == '\n' {
            assert(s@.subrange(from as int, n as int)[j - from] == '\n');
            return true;
        }
        j = j + 1;
    }
    assert forall|k: int| 0 <= k < s@.subrange(from as int, n as int).len()
        implies s@.subrange(from as int, n as int)[k] != '\n' by {
        assert(s@[from + k] != '\n');
    }
    false
}

/// The comparison after the first occurrence of `form` in `s` that a
/// comparison follows.
fn find_form(s: &str, form: &str) -> (r: Option<Result<(Comparison, u128), ConditionError>>)
    ensures
        r == form_in(s@, form@),
{
    let n = s.unicode_len();
    let m = form.unicode_len();
    let mut i: usize = 0;
    while i < n
        invariant
            n == s@.len(),
            m == form@.len(),
            i <= n,
            first_form(s@, form@, 0) == first_form(s@, form@, i as int),
        decreases n - i,
    {
        if occurs(s, i, form) {
            let c = parse_comparison(s, i + m);
            if c.is_some() {
                return c;
            }
        }
        i = i + 1;
    }
    assert(first_form(s@, form@, n + 1) is None);
    if occurs(s, n, form) {
        parse_comparison(s, n + m)
    } else {
        None
    }
}

impl Condition {
    /// Reads condition text: empty text, `has modifier NAME`, or text that
    /// holds `trial bot mass less|greater than N` or
    /// `population unease less|greater than N` (the first such occurrence
    /// counts), where `N` is the longest
    /// `D+(.D+)?(eD+)?` that follows (text after it is passed over). A
    /// comparison without a number, or with one beyond the fixed-point range,
    /// is an error. Other text is kept as `Unrecognized`.
    pub fn parse(text: &str) -> (r: Result<Condition, ConditionError>)
        ensures
            parsed_view(r) == condition_of(text@),
    {
        let n = text.unicode_len();
        if n == 0 {
            return Ok(Condition::Always);
        }
        let hm = "has modifier ";
        let tm = "trial bot mass ";
        let pu = "population unease ";
        if occurs(text, 0, hm) && !has_line_break(text, hm.unicode_len()) {
            let name = text.substring_char(hm.unicode_len(), n);
            return Ok(Condition::HasModifier(String::from_str(name)));
        }
        match find_form(text, tm) {
            Some(Ok((c, t))) => {
                return Ok(Condition::TrialMass(c, t));
            },
            Some(Err(e)) => {
                return Err(e);
            },
            None => {},
        }
        match find_form(text, pu) {
                Some(Ok((c, t))) => {
                    return Ok(Condition::Unease(c, t));
                },
                Some(Err(e)) => {
                    return Err(e);
                },
                None => {},
        }
        Ok(Condition::Unrecognized)
    }
}

} // verus!
