//! Canonical notation of an expression: `{count}d{faces}{retention}{modifiers}`.
use crate::{ExprView, RollExpression, RollModifier, RollRetention};
use vstd::prelude::*;
use vstd::string::*;

verus! {

broadcast use vstd::string::group_string_axioms;

/// The character of a decimal digit `d < 10`.
pub open spec fn digit_char(d: nat) -> char {
    ((d + '0' as u32) as u32) as char
}

/// The decimal representation of `n`, without leading zeros.
pub open spec fn decimal(n: nat) -> Seq<char>
    decreases n,
{
    if n < 10 {
        seq![digit_char(n)]
    } else {
        decimal(n / 10) + seq![digit_char(n % 10)]
    }
}

/// Faces as written: `%` for a hundred, else the number.
pub open spec fn render_faces(faces: usize) -> Seq<char> {
    if faces == 100 {
        seq!['%']
    } else {
        decimal(faces as nat)
    }
}

pub open spec fn render_retention(r: RollRetention) -> Seq<char> {
    match r {
        RollRetention::All => seq![],
        RollRetention::Highest(n) => seq!['h'] + decimal(n as nat),
        RollRetention::Lowest(n) => seq!['l'] + decimal(n as nat),
    }
}

/// A modifier as written; an explosion at the face count needs no number.
pub open spec fn render_modifier(m: RollModifier, faces: usize) -> Seq<char> {
    match m {
        RollModifier::Add(n) => seq!['+'] + decimal(n as nat),
        RollModifier::Subtract(n) => seq!['-'] + decimal(n as nat),
        RollModifier::Multiply(n) => seq!['x'] + decimal(n as nat),
        RollModifier::Divide(n) => seq!['/'] + decimal(n as nat),
        RollModifier::Explode(n) => if n == faces {
            seq!['!']
        } else {
            seq!['!'] + decimal(n as nat)
        },
    }
}

pub open spec fn render_modifiers(ms: Seq<RollModifier>, faces: usize) -> Seq<char>
    decreases ms.len(),
{
    if ms.len() == 0 {
        seq![]
    } else {
        render_modifiers(ms.drop_last(), faces) + render_modifier(ms.last(), faces)
    }
}

/// The canonical notation of an expression.
pub open spec fn render(e: ExprView) -> Seq<char> {
    decimal(e.count as nat) + seq!['d'] + render_faces(e.faces) + render_retention(e.retention)
        + render_modifiers(e.modifiers, e.faces)
}

fn digit_str(d: usize) -> (r: &'static str)
    requires
        d < 10,
    ensures
        r@ == seq![digit_char(d as nat)],
{
    proof {
        reveal_strlit("0");
        reveal_strlit("1");
        reveal_strlit("2");
        reveal_strlit("3");
        reveal_strlit("4");
        reveal_strlit("5");
        reveal_strlit("6");
        reveal_strlit("7");
        reveal_strlit("8");
        reveal_strlit("9");
    }
    let r = match d {
        0 => "0",
        1 => "1",
        2 => "2",
        3 => "3",
        4 => "4",
        5 => "5",
        6 => "6",
        7 => "7",
        8 => "8",
        _ => "9",
    };
    assert(r@ =~= seq![digit_char(d as nat)]);
    r
}

/// Appends the decimal representation of `n`.
pub fn push_decimal(out: &mut String, n: usize)
    ensures
        final(out)@ == old(out)@ + decimal(n as nat),
    decreases n,
{
    if n < 10 {
        out.append(digit_str(n));
    } else {
        push_decimal(out, n / 10);
        out.append(digit_str(n % 10));
        assert(final(out)@ =~= old(out)@ + decimal(n as nat));
    }
}

fn push_str(out: &mut String, s: &str)
    ensures
        final(out)@ == old(out)@ + s@,
{
    out.append(s);
}

fn push_modifier(out: &mut String, m: RollModifier, faces: usize)
    ensures
        final(out)@ == old(out)@ + render_modifier(m, faces),
{
    let ghost start = out@;
    proof {
        reveal_strlit("+");
        reveal_strlit("-");
        reveal_strlit("x");
        reveal_strlit("/");
        reveal_strlit("!");
    }
    match m {
        RollModifier::Add(n) => {
            push_str(out, "+");
            push_decimal(out, n);
        },
        RollModifier::Subtract(n) => {
            push_str(out, "-");
            push_decimal(out, n);
        },
        RollModifier::Multiply(n) => {
            push_str(out, "x");
            push_decimal(out, n);
        },
        RollModifier::Divide(n) => {
            push_str(out, "/");
            push_decimal(out, n);
        },
        RollModifier::Explode(n) => {
            push_str(out, "!");
            if n != faces {
                push_decimal(out, n);
            }
        },
    }
    assert(out@ =~= start + render_modifier(m, faces));
}

impl RollExpression {
    /// The canonical notation of this expression.
    pub fn canonical(&self) -> (r: String)
        ensures
            r@ == render(self@),
    {
        let mut out = String::new();
        proof {
            reveal_strlit("d");
            reveal_strlit("%");
            reveal_strlit("h");
            reveal_strlit("l");
        }
        push_decimal(&mut out, self.count);
        push_str(&mut out, "d");
        if self.faces == 100 {
            push_str(&mut out, "%");
        } else {
            push_decimal(&mut out, self.faces);
        }
        match self.retention {
            RollRetention::All => {},
            RollRetention::Highest(n) => {
                push_str(&mut out, "h");
                push_decimal(&mut out, n);
            },
            RollRetention::Lowest(n) => {
                push_str(&mut out, "l");
                push_decimal(&mut out, n);
            },
        }
        let ghost head = out@;
        assert(head =~= decimal(self.count as nat) + seq!['d'] + render_faces(self.faces)
            + render_retention(self.retention));
        let mut i: usize = 0;
        while i < self.modifiers.len()
            invariant
                i <= self.modifiers.len(),
                out@ == head + render_modifiers(self.modifiers@.subrange(0, i as int), self.faces),
            decreases self.modifiers.len() - i,
        {
            let m = self.modifiers[i];
            push_modifier(&mut out, m, self.faces);
            proof {
                let pre = self.modifiers@.subrange(0, i as int + 1);
                assert(pre.drop_last() =~= self.modifiers@.subrange(0, i as int));
            }
            i = i + 1;
        }
        assert(self.modifiers@.subrange(0, i as int) =~= self.modifiers@);
        out
    }
}

} // verus!
