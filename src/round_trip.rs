//! Canonical notation parses back to the expressions it was rendered from.
use crate::render::{decimal, digit_char, render, render_faces, render_modifier, render_modifiers, render_retention};
use crate::standard::{
    digits_end, digits_value, dice_at, expr_at, exprs_from, is_digit, is_modifier_start, is_space,
    modifier_at, modifiers_at, number, retention_at, skip_spaces, spaced_number_at,
    syntax, expr_ok, StandardNotation,
};
use crate::{ExprView, Notation, RollModifier, RollRetention};
use vstd::prelude::*;

verus! {

/// The canonical notation of several expressions, separated by single spaces.
pub open spec fn render_all(es: Seq<ExprView>) -> Seq<char>
    decreases es.len(),
{
    if es.len() == 0 {
        seq![]
    } else if es.len() == 1 {
        render(es[0])
    } else {
        render(es[0]) + seq![' '] + render_all(es.drop_first())
    }
}

/// `w` stands in `t` at position `p`.
spec fn at(t: Seq<char>, p: int, w: Seq<char>) -> bool {
    0 <= p && p + w.len() <= t.len() && t.subrange(p, p + w.len()) == w
}

/// No digit stands at `q`.
spec fn no_digit(t: Seq<char>, q: int) -> bool {
    q == t.len() || (0 <= q < t.len() && !is_digit(t[q]))
}

/// At `q` the text ends, or a space stands before the next expression.
spec fn follow_ok(t: Seq<char>, q: int) -> bool {
    q == t.len() || (0 <= q && q + 1 < t.len() && t[q] == ' ' && is_digit(t[q + 1]))
}

proof fn lemma_split(t: Seq<char>, p: int, a: Seq<char>, b: Seq<char>)
    requires
        at(t, p, a + b),
    ensures
        at(t, p, a),
        at(t, p + a.len(), b),
{
    assert(t.subrange(p, p + a.len()) =~= (a + b).subrange(0, a.len() as int));
    assert((a + b).subrange(0, a.len() as int) =~= a);
    assert(t.subrange(p + a.len(), p + a.len() + b.len()) =~= (a + b).subrange(
        a.len() as int,
        (a + b).len() as int,
    ));
    assert((a + b).subrange(a.len() as int, (a + b).len() as int) =~= b);
}

proof fn lemma_at_index(t: Seq<char>, p: int, w: Seq<char>, i: int)
    requires
        at(t, p, w),
        0 <= i < w.len(),
    ensures
        t[p + i] == w[i],
{
    assert(t.subrange(p, p + w.len())[i] == t[p + i]);
}

proof fn lemma_digit_char(d: nat)
    requires
        d < 10,
    ensures
        is_digit(digit_char(d)),
        (digit_char(d) as u32 - '0' as u32) as nat == d,
{
}

proof fn lemma_decimal_digits(n: nat)
    ensures
        decimal(n).len() >= 1,
        forall|i: int| 0 <= i < decimal(n).len() ==> is_digit(#[trigger] decimal(n)[i]),
    decreases n,
{
    if n < 10 {
        lemma_digit_char(n);
    } else {
        lemma_decimal_digits(n / 10);
        lemma_digit_char(n % 10);
        let a = decimal(n / 10);
        let b = seq![digit_char(n % 10)];
        assert forall|i: int| 0 <= i < decimal(n).len() implies is_digit(#[trigger] decimal(n)[i]) by {
            if i < a.len() {
                assert(decimal(n)[i] == a[i]);
            } else {
                assert(decimal(n)[i] == b[i - a.len()]);
            }
        }
    }
}

proof fn lemma_decimal_value(t: Seq<char>, p: int, n: nat)
    requires
        at(t, p, decimal(n)),
    ensures
        digits_value(t, p, p + decimal(n).len()) == n,
    decreases n,
{
    lemma_digit_char(n % 10);
    if n < 10 {
        lemma_at_index(t, p, decimal(n), 0);
        assert(digits_value(t, p, p) == 0);
    } else {
        let a = decimal(n / 10);
        let b = seq![digit_char(n % 10)];
        lemma_split(t, p, a, b);
        lemma_decimal_value(t, p, n / 10);
        lemma_at_index(t, p + a.len(), b, 0);
    }
}

proof fn lemma_digits_end_run(t: Seq<char>, q: int, e: int)
    requires
        0 <= q <= e <= t.len(),
        forall|i: int| q <= i < e ==> is_digit(#[trigger] t[i]),
        no_digit(t, e),
    ensures
        digits_end(t, q) == e,
    decreases e - q,
{
    if q < e {
        lemma_digits_end_run(t, q + 1, e);
    }
}

/// A decimal number standing at `p`, followed by no digit, reads back as itself.
proof fn lemma_number_at(t: Seq<char>, p: int, n: usize)
    requires
        at(t, p, decimal(n as nat)),
        no_digit(t, p + decimal(n as nat).len()),
    ensures
        decimal(n as nat).len() >= 1,
        is_digit(t[p]),
        !is_space(t[p]),
        skip_spaces(t, p) == p,
        digits_end(t, p) == p + decimal(n as nat).len(),
        number(t, p, p + decimal(n as nat).len()) == Some(n),
{
    let w = decimal(n as nat);
    lemma_decimal_digits(n as nat);
    assert forall|i: int| p <= i < p + w.len() implies is_digit(#[trigger] t[i]) by {
        lemma_at_index(t, p, w, i - p);
    }
    lemma_digits_end_run(t, p, p + w.len());
    lemma_decimal_value(t, p, n as nat);
}

proof fn lemma_render_modifiers_front(ms: Seq<RollModifier>, faces: usize)
    requires
        ms.len() > 0,
    ensures
        render_modifiers(ms, faces) == render_modifier(ms[0], faces) + render_modifiers(
            ms.drop_first(),
            faces,
        ),
    decreases ms.len(),
{
    if ms.len() == 1 {
        assert(ms.drop_last() =~= Seq::<RollModifier>::empty());
        assert(ms.drop_first() =~= Seq::<RollModifier>::empty());
        assert(render_modifiers(ms.drop_first(), faces) =~= Seq::<char>::empty());
        assert(render_modifiers(ms.drop_last(), faces) =~= Seq::<char>::empty());
        assert(render_modifiers(ms, faces) =~= render_modifier(ms[0], faces) + Seq::<char>::empty());
    } else {
        lemma_render_modifiers_front(ms.drop_last(), faces);
        assert(ms.drop_last().drop_first() =~= ms.drop_first().drop_last());
        assert(ms.drop_first().last() == ms.last());
        assert(ms.drop_last()[0] == ms[0]);
        assert(render_modifiers(ms, faces) =~= render_modifier(ms[0], faces) + render_modifiers(
            ms.drop_first(),
            faces,
        ));
    }
}

/// The first character of a rendered modifier is its sign.
proof fn lemma_modifier_sign(m: RollModifier, faces: usize)
    ensures
        render_modifier(m, faces).len() >= 1,
        is_modifier_start(render_modifier(m, faces)[0]),
        !is_digit(render_modifier(m, faces)[0]),
        !is_space(render_modifier(m, faces)[0]),
        render_modifier(m, faces)[0] != 'h' && render_modifier(m, faces)[0] != 'l',
{
}

proof fn lemma_modifier_at(t: Seq<char>, k: int, m: RollModifier, faces: usize)
    requires
        at(t, k, render_modifier(m, faces)),
        no_digit(t, k + render_modifier(m, faces).len()),
    ensures
        modifier_at(t, k, faces) == Some((m, k + render_modifier(m, faces).len())),
{
    let w = render_modifier(m, faces);
    lemma_at_index(t, k, w, 0);
    match m {
        RollModifier::Explode(n) => {
            if n == faces {
                assert(digits_end(t, k + 1) == k + 1);
            } else {
                lemma_split(t, k, seq!['!'], decimal(n as nat));
                lemma_number_at(t, k + 1, n);
            }
        },
        RollModifier::Add(n) => {
            lemma_split(t, k, seq!['+'], decimal(n as nat));
            lemma_number_at(t, k + 1, n);
        },
        RollModifier::Subtract(n) => {
            lemma_split(t, k, seq!['-'], decimal(n as nat));
            lemma_number_at(t, k + 1, n);
        },
        RollModifier::Multiply(n) => {
            lemma_split(t, k, seq!['x'], decimal(n as nat));
            lemma_number_at(t, k + 1, n);
        },
        RollModifier::Divide(n) => {
            lemma_split(t, k, seq!['/'], decimal(n as nat));
            lemma_number_at(t, k + 1, n);
        },
    }
}

/// What follows a rendered expression holds no digit, and skipping spaces
/// there reaches a digit or the end.
proof fn lemma_follow(t: Seq<char>, q: int)
    requires
        follow_ok(t, q),
    ensures
        no_digit(t, q),
        skip_spaces(t, q) == q || (skip_spaces(t, q) == q + 1 && is_digit(t[q + 1])),
        skip_spaces(t, q) >= t.len() || is_digit(t[skip_spaces(t, q)]),
{
    if q < t.len() {
        assert(skip_spaces(t, q + 1) == q + 1);
    }
}

proof fn lemma_modifiers_at(t: Seq<char>, k: int, ms: Seq<RollModifier>, faces: usize)
    requires
        at(t, k, render_modifiers(ms, faces)),
        follow_ok(t, k + render_modifiers(ms, faces).len()),
    ensures
        modifiers_at(t, k, faces) == Some((ms, k + render_modifiers(ms, faces).len())),
    decreases ms.len(),
{
    if ms.len() == 0 {
        assert(render_modifiers(ms, faces).len() == 0);
        lemma_follow(t, k);
        assert(ms =~= Seq::<RollModifier>::empty());
    } else {
        lemma_render_modifiers_front(ms, faces);
        let a = render_modifier(ms[0], faces);
        let b = render_modifiers(ms.drop_first(), faces);
        lemma_split(t, k, a, b);
        lemma_modifier_sign(ms[0], faces);
        lemma_at_index(t, k, a, 0);
        let k2 = k + a.len();
        if ms.len() > 1 {
            lemma_render_modifiers_front(ms.drop_first(), faces);
            lemma_modifier_sign(ms.drop_first()[0], faces);
            lemma_at_index(t, k2, b, 0);
            assert(no_digit(t, k2));
        } else {
            assert(ms.drop_first() =~= Seq::<RollModifier>::empty());
            lemma_follow(t, k2);
        }
        lemma_modifier_at(t, k, ms[0], faces);
        lemma_modifiers_at(t, k2, ms.drop_first(), faces);
        assert(seq![ms[0]] + ms.drop_first() =~= ms);
    }
}

/// An expression is well formed: at least one die of at least one face.
spec fn wf(e: ExprView) -> bool {
    e.count >= 1 && e.faces >= 1
}

proof fn lemma_expr_at(t: Seq<char>, p: int, e: ExprView)
    requires
        wf(e),
        at(t, p, render(e)),
        follow_ok(t, p + render(e).len()),
    ensures
        expr_at(t, p) == Some((e, p + render(e).len())),
        is_digit(t[p]),
{
    let c = decimal(e.count as nat);
    let f = render_faces(e.faces);
    let r = render_retention(e.retention);
    let m = render_modifiers(e.modifiers, e.faces);
    lemma_split(t, p, c + seq!['d'] + f + r, m);
    lemma_split(t, p, c + seq!['d'] + f, r);
    lemma_split(t, p, c + seq!['d'], f);
    lemma_split(t, p, c, seq!['d']);
    let j = p + c.len() + 1 + f.len();
    let k = j + r.len();
    let end = k + m.len();
    // what stands right after the retention
    if m.len() > 0 {
        assert(e.modifiers.len() > 0);
        lemma_render_modifiers_front(e.modifiers, e.faces);
        lemma_modifier_sign(e.modifiers[0], e.faces);
        lemma_split(t, k, render_modifier(e.modifiers[0], e.faces), render_modifiers(e.modifiers.drop_first(), e.faces));
        lemma_at_index(t, k, render_modifier(e.modifiers[0], e.faces), 0);
    } else {
        lemma_follow(t, k);
    }
    assert(no_digit(t, k));
    // what stands right after the faces
    match e.retention {
        RollRetention::All => {
            assert(k == j);
        },
        RollRetention::Highest(n) => {
            lemma_split(t, j, seq!['h'], decimal(n as nat));
            lemma_at_index(t, j, seq!['h'], 0);
            lemma_number_at(t, j + 1, n);
        },
        RollRetention::Lowest(n) => {
            lemma_split(t, j, seq!['l'], decimal(n as nat));
            lemma_at_index(t, j, seq!['l'], 0);
            lemma_number_at(t, j + 1, n);
        },
    }
    assert(no_digit(t, j));
    lemma_at_index(t, p + c.len(), seq!['d'], 0);
    lemma_number_at(t, p, e.count);
    let jd = p + c.len();
    if e.faces == 100 {
        lemma_at_index(t, jd + 1, f, 0);
        assert(dice_at(t, p) == Some((e.count, e.faces, j)));
    } else {
        lemma_number_at(t, jd + 1, e.faces);
        assert(t[jd + 1] != '%');
        assert(dice_at(t, p) == Some((e.count, e.faces, j)));
    }
    lemma_modifiers_at(t, k, e.modifiers, e.faces);
    match e.retention {
        RollRetention::All => {
            if m.len() == 0 {
                lemma_follow(t, k);
                if skip_spaces(t, j) < t.len() {
                    assert(is_digit(t[skip_spaces(t, j)]));
                }
            } else {
                assert(skip_spaces(t, j) == j);
            }
        },
        _ => {
            assert(skip_spaces(t, j) == j);
        },
    }
}

proof fn lemma_render_starts_with_digit(e: ExprView)
    ensures
        render(e).len() >= 1,
        is_digit(render(e)[0]),
{
    lemma_decimal_digits(e.count as nat);
    let c = decimal(e.count as nat);
    assert(render(e)[0] == c[0]);
}

proof fn lemma_exprs_from_render(t: Seq<char>, p: int, es: Seq<ExprView>)
    requires
        es.len() >= 1,
        forall|k: int| 0 <= k < es.len() ==> wf(#[trigger] es[k]),
        at(t, p, render_all(es)),
        p + render_all(es).len() == t.len(),
    ensures
        exprs_from(t, p) == Some(es),
        skip_spaces(t, p) == p,
        p < t.len(),
        is_digit(t[p]),
    decreases es.len(),
{
    let e = es[0];
    assert(wf(e));
    lemma_render_starts_with_digit(e);
    let q = p + render(e).len();
    if es.len() == 1 {
        lemma_expr_at(t, p, e);
        assert(exprs_from(t, q) == Some(Seq::<ExprView>::empty()));
        assert(seq![e] + Seq::<ExprView>::empty() =~= es);
    } else {
        let rest = es.drop_first();
        lemma_split(t, p, render(e) + seq![' '], render_all(rest));
        lemma_split(t, p, render(e), seq![' ']);
        lemma_at_index(t, q, seq![' '], 0);
        assert forall|k: int| 0 <= k < rest.len() implies wf(#[trigger] rest[k]) by {
            assert(rest[k] == es[k + 1]);
        }
        lemma_exprs_from_render(t, q + 1, rest);
        lemma_expr_at(t, p, e);
        assert(skip_spaces(t, q) == q + 1);
        assert(exprs_from(t, q) == exprs_from(t, q + 1));
        assert(seq![e] + rest =~= es);
    }
    assert(!is_space(t[p]));
}

proof fn lemma_exprs_from_wf(s: Seq<char>, i: int)
    requires
        exprs_from(s, i) is Some,
    ensures
        forall|k: int| 0 <= k < exprs_from(s, i).unwrap().len() ==> wf(#[trigger] exprs_from(s, i).unwrap()[k]),
    decreases s.len() - i,
{
    let p = skip_spaces(s, i);
    if p < s.len() {
        let (e, k) = expr_at(s, p).unwrap();
        lemma_exprs_from_wf(s, k);
        let es = exprs_from(s, i).unwrap();
        assert forall|x: int| 0 <= x < es.len() implies wf(#[trigger] es[x]) by {
            if x > 0 {
                assert(es[x] == exprs_from(s, k).unwrap()[x - 1]);
            }
        }
    }
}

/// Rendering what a text parses to, and parsing that rendering, gives the
/// same expressions again.
pub proof fn lemma_parse_render(s: Seq<char>)
    requires
        StandardNotation::notation(s) is Ok,
    ensures
        StandardNotation::notation(render_all(StandardNotation::notation(s).unwrap()))
            == StandardNotation::notation(s),
{
    let es = syntax(s).unwrap();
    lemma_exprs_from_wf(s, 0);
    let t = render_all(es);
    assert(t.subrange(0, t.len() as int) =~= t);
    lemma_exprs_from_render(t, 0, es);
}

/// A text that parses gives at least one expression, each with at least one
/// die of at least one face and every explosion threshold in `1..=faces`.
pub proof fn lemma_parsed_well_formed(s: Seq<char>)
    requires
        StandardNotation::notation(s) is Ok,
    ensures
        StandardNotation::notation(s).unwrap().len() >= 1,
        forall|k: int|
            0 <= k < StandardNotation::notation(s).unwrap().len() ==> {
                let e = #[trigger] StandardNotation::notation(s).unwrap()[k];
                e.count >= 1 && e.faces >= 1 && expr_ok(e)
            },
{
    lemma_exprs_from_wf(s, 0);
    let es = syntax(s).unwrap();
    assert forall|k: int| 0 <= k < es.len() implies wf(#[trigger] es[k]) && expr_ok(es[k]) by {}
}

} // verus!
