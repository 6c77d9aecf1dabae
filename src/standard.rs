//! The standard dice notation:
//!
//! ```text
//! Rolls     := RollExpr+
//! RollExpr  := Dice Retention? Modifier*
//! Dice      := Count? 'd' Faces           (count defaults to 1, both at least 1)
//! Faces     := '%' | digit+               ('%' is a hundred, no digit may follow it)
//! Retention := ('h' | 'l') digit+
//! Modifier  := ('+' | '-' | 'x' | '/') digit+ | '!' digit*
//! ```
//!
//! Spaces and tabs may stand before each expression, retention and modifier,
//! between an operator or `h`/`l` and its number, and at the end; nowhere
//! inside a `Dice` or right after `!`.
use crate::{views_of, ExprView, Notation, RollError, RollExpression, RollModifier, RollRetention};
use vstd::prelude::*;
use vstd::string::*;

verus! {

pub open spec fn is_digit(c: char) -> bool {
    '0' <= c && c <= '9'
}

pub open spec fn is_space(c: char) -> bool {
    c == ' ' || c == '\t'
}

/// The first position at or after `i` that holds no space.
pub open spec fn skip_spaces(s: Seq<char>, i: int) -> int
    decreases s.len() - i,
{
    if 0 <= i < s.len() && is_space(s[i]) {
        skip_spaces(s, i + 1)
    } else {
        i
    }
}

/// The first position at or after `i` that holds no digit.
pub open spec fn digits_end(s: Seq<char>, i: int) -> int
    decreases s.len() - i,
{
    if 0 <= i < s.len() && is_digit(s[i]) {
        digits_end(s, i + 1)
    } else {
        i
    }
}

/// The value of the decimal digits `s[i..j]`.
pub open spec fn digits_value(s: Seq<char>, i: int, j: int) -> nat
    decreases j - i,
{
    if j <= i {
        0
    } else {
        digits_value(s, i, j - 1) * 10 + ((s[j - 1] as u32 - '0' as u32) as nat)
    }
}

/// The number written by the digits `s[i..j]`, if it fits a `usize`.
pub open spec fn number(s: Seq<char>, i: int, j: int) -> Option<usize> {
    if digits_value(s, i, j) <= usize::MAX {
        Some(digits_value(s, i, j) as usize)
    } else {
        None
    }
}

/// `Count? 'd' Faces` at `i`: the count, the faces and the end.
pub open spec fn dice_at(s: Seq<char>, i: int) -> Option<(usize, usize, int)> {
    let j = digits_end(s, i);
    let count = if j == i {
        Some(1usize)
    } else {
        number(s, i, j)
    };
    match count {
        None => None,
        Some(c) => if c == 0 || !(j < s.len() && s[j] == 'd') {
            None
        } else if j + 1 < s.len() && s[j + 1] == '%' {
            if j + 2 < s.len() && is_digit(s[j + 2]) {
                None
            } else {
                Some((c, 100usize, j + 2))
            }
        } else {
            let k = digits_end(s, j + 1);
            if k == j + 1 {
                None
            } else {
                match number(s, j + 1, k) {
                    None => None,
                    Some(f) => if f == 0 {
                        None
                    } else {
                        Some((c, f, k))
                    },
                }
            }
        },
    }
}

/// A number after optional spaces at `i`, and its end.
pub open spec fn spaced_number_at(s: Seq<char>, i: int) -> Option<(usize, int)> {
    let p = skip_spaces(s, i);
    let k = digits_end(s, p);
    if k == p {
        None
    } else {
        match number(s, p, k) {
            None => None,
            Some(n) => Some((n, k)),
        }
    }
}

/// The retention whose letter stands at `q`.
pub open spec fn retention_at(s: Seq<char>, q: int) -> Option<(RollRetention, int)> {
    match spaced_number_at(s, q + 1) {
        None => None,
        Some((n, k)) => Some(
            (
                if s[q] == 'h' {
                    RollRetention::Highest(n)
                } else {
                    RollRetention::Lowest(n)
                },
                k,
            ),
        ),
    }
}

pub open spec fn is_modifier_start(c: char) -> bool {
    c == '+' || c == '-' || c == 'x' || c == '/' || c == '!'
}

/// The modifier whose sign stands at `q`; `!` without digits explodes at
/// `faces`.
pub open spec fn modifier_at(s: Seq<char>, q: int, faces: usize) -> Option<(RollModifier, int)> {
    if s[q] == '!' {
        let k = digits_end(s, q + 1);
        if k == q + 1 {
            Some((RollModifier::Explode(faces), k))
        } else {
            match number(s, q + 1, k) {
                None => None,
                Some(n) => Some((RollModifier::Explode(n), k)),
            }
        }
    } else {
        match spaced_number_at(s, q + 1) {
            None => None,
            Some((n, k)) => Some(
                (
                    if s[q] == '+' {
                        RollModifier::Add(n)
                    } else if s[q] == '-' {
                        RollModifier::Subtract(n)
                    } else if s[q] == 'x' {
                        RollModifier::Multiply(n)
                    } else {
                        RollModifier::Divide(n)
                    },
                    k,
                ),
            ),
        }
    }
}

/// The modifiers from `i` on, and where they end.
pub open spec fn modifiers_at(s: Seq<char>, i: int, faces: usize) -> Option<(Seq<RollModifier>, int)>
    decreases s.len() - i,
{
    let p = skip_spaces(s, i);
    if 0 <= p < s.len() && is_modifier_start(s[p]) {
        match modifier_at(s, p, faces) {
            None => None,
            Some((m, k)) => if i < k <= s.len() {
                match modifiers_at(s, k, faces) {
                    None => None,
                    Some((ms, e)) => Some((seq![m] + ms, e)),
                }
            } else {
                None
            },
        }
    } else {
        Some((seq![], i))
    }
}

/// One expression at `i`, and its end.
pub open spec fn expr_at(s: Seq<char>, i: int) -> Option<(ExprView, int)> {
    match dice_at(s, i) {
        None => None,
        Some((c, f, j)) => {
            let q = skip_spaces(s, j);
            let ret = if 0 <= q < s.len() && (s[q] == 'h' || s[q] == 'l') {
                retention_at(s, q)
            } else {
                Some((RollRetention::All, j))
            };
            match ret {
                None => None,
                Some((r, k)) => match modifiers_at(s, k, f) {
                    None => None,
                    Some((ms, e)) => Some(
                        (ExprView { faces: f, count: c, retention: r, modifiers: ms }, e),
                    ),
                },
            }
        },
    }
}

/// The expressions from `i` to the end of the text.
pub open spec fn exprs_from(s: Seq<char>, i: int) -> Option<Seq<ExprView>>
    decreases s.len() - i,
{
    let p = skip_spaces(s, i);
    if p >= s.len() {
        Some(seq![])
    } else {
        match expr_at(s, p) {
            None => None,
            Some((e, k)) => if i < k <= s.len() {
                match exprs_from(s, k) {
                    None => None,
                    Some(es) => Some(seq![e] + es),
                }
            } else {
                None
            },
        }
    }
}

/// The expressions of a text that follows the grammar, at least one.
pub open spec fn syntax(s: Seq<char>) -> Option<Seq<ExprView>> {
    if skip_spaces(s, 0) >= s.len() {
        None
    } else {
        exprs_from(s, 0)
    }
}

/// Whether an explosion threshold lies in `1..=faces`.
pub open spec fn modifier_ok(m: RollModifier, faces: usize) -> bool {
    match m {
        RollModifier::Explode(n) => 1 <= n && n <= faces,
        _ => true,
    }
}

pub open spec fn expr_ok(e: ExprView) -> bool {
    forall|j: int| 0 <= j < e.modifiers.len() ==> modifier_ok(#[trigger] e.modifiers[j], e.faces)
}

/// What parsing `s` gives: `InvalidNotation` off the grammar, else
/// `InvalidModifier` when an explosion threshold lies outside `1..=faces`,
/// else the expressions in the order written.
pub open spec fn parse_spec(s: Seq<char>) -> Result<Seq<ExprView>, RollError> {
    match syntax(s) {
        None => Err(RollError::InvalidNotation),
        Some(es) => if forall|k: int| 0 <= k < es.len() ==> expr_ok(#[trigger] es[k]) {
            Ok(es)
        } else {
            Err(RollError::InvalidModifier)
        },
    }
}

fn skip_spaces_exec(s: &Vec<char>, i: usize) -> (r: usize)
    requires
        i <= s.len(),
    ensures
        r as int == skip_spaces(s@, i as int),
        i <= r <= s.len(),
{
    let mut j = i;
    while j < s.len() && (s[j] == ' ' || s[j] == '\t')
        invariant
            i <= j <= s.len(),
            skip_spaces(s@, i as int) == skip_spaces(s@, j as int),
        decreases s.len() - j,
    {
        j = j + 1;
    }
    j
}

fn digits_end_exec(s: &Vec<char>, i: usize) -> (r: usize)
    requires
        i <= s.len(),
    ensures
        r as int == digits_end(s@, i as int),
        i <= r <= s.len(),
        forall|k: int| i <= k < r ==> is_digit(#[trigger] s@[k]),
{
    let mut j = i;
    while j < s.len() && '0' <= s[j] && s[j] <= '9'
        invariant
            i <= j <= s.len(),
            digits_end(s@, i as int) == digits_end(s@, j as int),
            forall|k: int| i <= k < j ==> is_digit(#[trigger] s@[k]),
        decreases s.len() - j,
    {
        j = j + 1;
    }
    j
}

proof fn lemma_digits_value_grows(s: Seq<char>, i: int, k: int, j: int)
    requires
        i <= k <= j,
        forall|m: int| i <= m < j ==> is_digit(#[trigger] s[m]),
    ensures
        digits_value(s, i, k) <= digits_value(s, i, j),
    decreases j - k,
{
    if k < j {
        lemma_digits_value_grows(s, i, k, j - 1);
    }
}

fn number_exec(s: &Vec<char>, i: usize, j: usize) -> (r: Option<usize>)
    requires
        i <= j <= s.len(),
        forall|k: int| i <= k < j ==> is_digit(#[trigger] s@[k]),
    ensures
        r == number(s@, i as int, j as int),
{
    let mut acc: usize = 0;
    let mut k = i;
    while k < j
        invariant
            i <= k <= j <= s.len(),
            forall|m: int| i <= m < j ==> is_digit(#[trigger] s@[m]),
            acc == digits_value(s@, i as int, k as int),
        decreases j - k,
    {
        let d = (s[k] as u32 - '0' as u32) as usize;
        assert(is_digit(s@[k as int]));
        if acc > (usize::MAX - d) / 10 {
            proof {
                assert(acc * 10 + d > usize::MAX) by (nonlinear_arith)
                    requires
                        acc > (usize::MAX - d) / 10,
                        d <= 9,
                ;
                lemma_digits_value_grows(s@, i as int, k as int + 1, j as int);
            }
            return None;
        }
        assert(acc * 10 + d <= usize::MAX) by (nonlinear_arith)
            requires
                acc <= (usize::MAX - d) / 10,
                d <= 9,
        ;
        acc = acc * 10 + d;
        k = k + 1;
    }
    Some(acc)
}

fn dice_exec(s: &Vec<char>, i: usize) -> (r: Option<(usize, usize, usize)>)
    requires
        i <= s.len(),
    ensures
        match dice_at(s@, i as int) {
            None => r is None,
            Some(t) => r is Some && r.unwrap().0 == t.0 && r.unwrap().1 == t.1 && r.unwrap().2
                == t.2 && i < t.2 <= s.len(),
        },
{
    let j = digits_end_exec(s, i);
    let count = if j == i {
        Some(1usize)
    } else {
        number_exec(s, i, j)
    };
    let c = match count {
        None => {
            return None;
        },
        Some(c) => c,
    };
    if c == 0 || !(j < s.len() && s[j] == 'd') {
        return None;
    }
    if j + 1 < s.len() && s[j + 1] == '%' {
        if j + 2 < s.len() && '0' <= s[j + 2] && s[j + 2] <= '9' {
            None
        } else {
            Some((c, 100, j + 2))
        }
    } else {
        let k = digits_end_exec(s, j + 1);
        if k == j + 1 {
            return None;
        }
        match number_exec(s, j + 1, k) {
            None => None,
            Some(f) => if f == 0 {
                None
            } else {
                Some((c, f, k))
            },
        }
    }
}

fn spaced_number_exec(s: &Vec<char>, i: usize) -> (r: Option<(usize, usize)>)
    requires
        i <= s.len(),
    ensures
        match spaced_number_at(s@, i as int) {
            None => r is None,
            Some(t) => r is Some && r.unwrap().0 == t.0 && r.unwrap().1 == t.1 && i < t.1 <= s.len(),
        },
{
    let p = skip_spaces_exec(s, i);
    let k = digits_end_exec(s, p);
    if k == p {
        return None;
    }
    match number_exec(s, p, k) {
        None => None,
        Some(n) => Some((n, k)),
    }
}

fn modifier_exec(s: &Vec<char>, q: usize, faces: usize) -> (r: Option<(RollModifier, usize)>)
    requires
        q < s.len(),
        is_modifier_start(s@[q as int]),
    ensures
        match modifier_at(s@, q as int, faces) {
            None => r is None,
            Some(t) => r is Some && r.unwrap().0 == t.0 && r.unwrap().1 == t.1 && q < t.1 <= s.len(),
        },
{
    let c = s[q];
    if c == '!' {
        let k = digits_end_exec(s, q + 1);
        if k == q + 1 {
            Some((RollModifier::Explode(faces), k))
        } else {
            match number_exec(s, q + 1, k) {
                None => None,
                Some(n) => Some((RollModifier::Explode(n), k)),
            }
        }
    } else {
        match spaced_number_exec(s, q + 1) {
            None => None,
            Some((n, k)) => {
                let m = if c == '+' {
                    RollModifier::Add(n)
                } else if c == '-' {
                    RollModifier::Subtract(n)
                } else if c == 'x' {
                    RollModifier::Multiply(n)
                } else {
                    RollModifier::Divide(n)
                };
                Some((m, k))
            },
        }
    }
}

fn modifiers_exec(s: &Vec<char>, i: usize, faces: usize) -> (r: Option<(Vec<RollModifier>, usize)>)
    requires
        i <= s.len(),
    ensures
        match modifiers_at(s@, i as int, faces) {
            None => r is None,
            Some(t) => r is Some && r.unwrap().0@ == t.0 && r.unwrap().1 == t.1 && i <= t.1 <= s.len(),
        },
{
    let mut ms: Vec<RollModifier> = Vec::new();
    let mut k = i;
    loop
        invariant
            i <= k <= s.len(),
            modifiers_at(s@, i as int, faces) == match modifiers_at(s@, k as int, faces) {
                None => None,
                Some(t) => Some((ms@ + t.0, t.1)),
            },
        decreases s.len() - k,
    {
        let p = skip_spaces_exec(s, k);
        if p < s.len() && (s[p] == '+' || s[p] == '-' || s[p] == 'x' || s[p] == '/' || s[p]
            == '!') {
            match modifier_exec(s, p, faces) {
                None => {
                    return None;
                },
                Some((m, e)) => {
                    let ghost prev = ms@;
                    proof {
                        let rest = modifiers_at(s@, e as int, faces);
                        if rest is Some {
                            assert(prev + (seq![m] + rest.unwrap().0) =~= prev.push(m)
                                + rest.unwrap().0);
                        }
                    }
                    ms.push(m);
                    k = e;
                },
            }
        } else {
            assert(ms@ + seq![] =~= ms@);
            return Some((ms, k));
        }
    }
}

fn expr_exec(s: &Vec<char>, i: usize) -> (r: Option<(RollExpression, usize)>)
    requires
        i <= s.len(),
    ensures
        match expr_at(s@, i as int) {
            None => r is None,
            Some(t) => r is Some && r.unwrap().0@ == t.0 && r.unwrap().1 == t.1 && i < t.1 <= s.len(),
        },
{
    let (count, faces, j) = match dice_exec(s, i) {
        None => {
            return None;
        },
        Some(t) => t,
    };
    let q = skip_spaces_exec(s, j);
    let (retention, k) = if q < s.len() && (s[q] == 'h' || s[q] == 'l') {
        match spaced_number_exec(s, q + 1) {
            None => {
                return None;
            },
            Some((n, k)) => {
                if s[q] == 'h' {
                    (RollRetention::Highest(n), k)
                } else {
                    (RollRetention::Lowest(n), k)
                }
            },
        }
    } else {
        (RollRetention::All, j)
    };
    match modifiers_exec(s, k, faces) {
        None => None,
        Some((modifiers, e)) => Some((RollExpression { faces, count, retention, modifiers }, e)),
    }
}

/// Parses notation given as characters.
pub fn parse_chars(s: &Vec<char>) -> (r: Result<Vec<RollExpression>, RollError>)
    ensures
        match r {
            Ok(es) => parse_spec(s@) == Ok::<Seq<ExprView>, RollError>(views_of(es@)),
            Err(e) => parse_spec(s@) == Err::<Seq<ExprView>, RollError>(e),
        },
{
    let p0 = skip_spaces_exec(s, 0);
    if p0 >= s.len() {
        return Err(RollError::InvalidNotation);
    }
    let mut es: Vec<RollExpression> = Vec::new();
    let mut k: usize = 0;
    loop
        invariant
            k <= s.len(),
            p0 < s.len(),
            p0 == skip_spaces(s@, 0),
            exprs_from(s@, 0) == match exprs_from(s@, k as int) {
                None => None,
                Some(t) => Some(views_of(es@) + t),
            },
        ensures
            exprs_from(s@, 0) == Some(views_of(es@)),
        decreases s.len() - k,
    {
        let p = skip_spaces_exec(s, k);
        if p >= s.len() {
            assert(views_of(es@) + seq![] =~= views_of(es@));
            assert(exprs_from(s@, k as int) == Some(Seq::<ExprView>::empty()));
            assert(exprs_from(s@, 0) == Some(views_of(es@)));
            break ;
        }
        match expr_exec(s, p) {
            None => {
                return Err(RollError::InvalidNotation);
            },
            Some((e, end)) => {
                let ghost prev = views_of(es@);
                let ghost ev = e@;
                es.push(e);
                proof {
                    assert(views_of(es@) =~= prev.push(ev));
                    let rest = exprs_from(s@, end as int);
                    if rest is Some {
                        assert(prev + (seq![ev] + rest.unwrap()) =~= prev.push(ev) + rest.unwrap());
                    }
                }
                k = end;
            },
        }
    }
    let mut x: usize = 0;
    while x < es.len()
        invariant
            x <= es.len(),
            p0 < s.len(),
            p0 == skip_spaces(s@, 0),
            exprs_from(s@, 0) == Some(views_of(es@)),
            forall|y: int| 0 <= y < x ==> expr_ok(#[trigger] views_of(es@)[y]),
        decreases es.len() - x,
    {
        let e = &es[x];
        assert(views_of(es@)[x as int] == es@[x as int]@);
        let mut y: usize = 0;
        while y < e.modifiers.len()
            invariant
                y <= e.modifiers.len(),
                x < es.len(),
                p0 < s.len(),
                p0 == skip_spaces(s@, 0),
                exprs_from(s@, 0) == Some(views_of(es@)),
                e == es@[x as int],
                forall|z: int| 0 <= z < y ==> modifier_ok(#[trigger] e.modifiers@[z], e.faces),
            decreases e.modifiers.len() - y,
        {
            match e.modifiers[y] {
                RollModifier::Explode(n) => {
                    if n < 1 || n > e.faces {
                        assert(views_of(es@)[x as int].modifiers[y as int] == e.modifiers@[y as int]);
                        assert(!modifier_ok(views_of(es@)[x as int].modifiers[y as int], e.faces));
                        assert(!expr_ok(views_of(es@)[x as int]));
                        return Err(RollError::InvalidModifier);
                    }
                },
                _ => {},
            }
            y = y + 1;
        }
        assert(expr_ok(views_of(es@)[x as int]));
        x = x + 1;
    }
    Ok(es)
}

/// Parses notation: one or more dice expressions.
pub fn parse_notation(input: &str) -> (r: Result<Vec<RollExpression>, RollError>)
    ensures
        match r {
            Ok(es) => parse_spec(input@) == Ok::<Seq<ExprView>, RollError>(views_of(es@)),
            Err(e) => parse_spec(input@) == Err::<Seq<ExprView>, RollError>(e),
        },
{
    let n = input.unicode_len();
    let mut chars: Vec<char> = Vec::new();
    let mut i: usize = 0;
    while i < n
        invariant
            i <= n,
            n == input@.len(),
            chars@ =~= input@.subrange(0, i as int),
        decreases n - i,
    {
        chars.push(input.get_char(i));
        i = i + 1;
    }
    assert(chars@ =~= input@);
    parse_chars(&chars)
}

/// The standard notation.
pub struct StandardNotation;

impl Notation for StandardNotation {
    open spec fn notation(s: Seq<char>) -> Result<Seq<ExprView>, RollError> {
        parse_spec(s)
    }

    fn parse_from_str(input: &str) -> Result<Vec<RollExpression>, RollError> {
        parse_notation(input)
    }
}

} // verus!
