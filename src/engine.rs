//! Evaluation of an expression: explosion, retention, total and modifiers.
use crate::render::render;
use crate::{
    ExprView, ResultView, Roll, RollError, RollExpression, RollItem, RollModifier, RollQuality,
    RollResult, RollRetention,
};
use rand::rngs::ThreadRng;
use rand::Rng;
use vstd::prelude::*;

verus! {

/// The most dice one explosion chain may add before the roll is given up.
pub const MAX_CHAIN: usize = 10000;

/// The threshold of the first explode modifier, if any.
pub open spec fn first_explode(ms: Seq<RollModifier>) -> Option<usize>
    decreases ms.len(),
{
    if ms.len() == 0 {
        None
    } else {
        match ms[0] {
            RollModifier::Explode(n) => Some(n),
            _ => first_explode(ms.drop_first()),
        }
    }
}

/// The explosion threshold of an expression, or `InvalidModifier` when it
/// lies outside `1..=faces`.
pub open spec fn explode_threshold(e: ExprView) -> Result<Option<usize>, RollError> {
    match first_explode(e.modifiers) {
        None => Ok(None),
        Some(n) => if 1 <= n && n <= e.faces {
            Ok(Some(n))
        } else {
            Err(RollError::InvalidModifier)
        },
    }
}

/// The error an expression fails with whatever the dice show.
pub open spec fn setup_error(e: ExprView) -> Option<RollError> {
    if explode_threshold(e) is Err {
        Some(RollError::InvalidModifier)
    } else {
        match e.retention {
            RollRetention::Highest(n) => if n > e.count {
                Some(RollError::InvalidRetention)
            } else {
                None
            },
            RollRetention::Lowest(n) => if n > e.count {
                Some(RollError::InvalidRetention)
            } else {
                None
            },
            RollRetention::All => None,
        }
    }
}

pub open spec fn quality_of(value: usize, faces: usize) -> RollQuality {
    if value == faces {
        RollQuality::Good
    } else if value == 1 {
        RollQuality::Bad
    } else {
        RollQuality::Regular
    }
}

/// Whether die `j` goes before die `i` when the dice are ordered by value,
/// ascending (`highest`) or descending (otherwise), equal values in pool order.
pub open spec fn precedes(pool: Seq<usize>, j: int, i: int, highest: bool) -> bool {
    if highest {
        pool[j] < pool[i] || (pool[j] == pool[i] && j < i)
    } else {
        pool[j] > pool[i] || (pool[j] == pool[i] && j < i)
    }
}

/// How many of the first `k` dice go before die `i`.
pub open spec fn rank_upto(pool: Seq<usize>, i: int, k: int, highest: bool) -> nat
    decreases k,
{
    if k <= 0 {
        0
    } else {
        rank_upto(pool, i, k - 1, highest) + if precedes(pool, k - 1, i, highest) {
            1nat
        } else {
            0nat
        }
    }
}

/// The place of die `i` in the order of `precedes`.
pub open spec fn rank(pool: Seq<usize>, i: int, highest: bool) -> nat {
    rank_upto(pool, i, pool.len() as int, highest)
}

/// Whether die `i` is kept: keeping the `n` highest drops the dice that come
/// first in ascending order, keeping the `n` lowest those that come first in
/// descending order; among equal values the earlier dice are dropped first.
pub open spec fn is_kept(pool: Seq<usize>, r: RollRetention, i: int) -> bool {
    match r {
        RollRetention::All => true,
        RollRetention::Highest(n) => rank(pool, i, true) + n >= pool.len(),
        RollRetention::Lowest(n) => rank(pool, i, false) + n >= pool.len(),
    }
}

/// The annotated outcomes of a pool of die values.
pub open spec fn outcomes(pool: Seq<usize>, faces: usize, r: RollRetention) -> Seq<RollItem> {
    Seq::new(
        pool.len(),
        |i: int|
            RollItem {
                value: pool[i],
                retained: is_kept(pool, r, i),
                quality: quality_of(pool[i], faces),
            },
    )
}

/// The sum of the retained values.
pub open spec fn kept_sum(items: Seq<RollItem>) -> int
    decreases items.len(),
{
    if items.len() == 0 {
        0
    } else {
        kept_sum(items.drop_last()) + if items.last().retained {
            items.last().value as int
        } else {
            0
        }
    }
}

pub open spec fn fits_i64(x: int) -> bool {
    i64::MIN <= x && x <= i64::MAX
}

/// Integer division rounding toward zero, for `b > 0`.
pub open spec fn trunc_div(a: int, b: int) -> int {
    if a >= 0 {
        a / b
    } else {
        -((-a) / b)
    }
}

/// One modifier applied to a running total; `None` on a division by zero or
/// a result outside `i64`.
pub open spec fn apply_modifier(t: int, m: RollModifier) -> Option<int> {
    let x = match m {
        RollModifier::Add(n) => Some(t + n),
        RollModifier::Subtract(n) => Some(t - n),
        RollModifier::Multiply(n) => Some(t * n),
        RollModifier::Divide(n) => if n == 0 {
            None
        } else {
            Some(trunc_div(t, n as int))
        },
        RollModifier::Explode(_) => Some(t),
    };
    match x {
        Some(v) => if fits_i64(v) {
            Some(v)
        } else {
            None
        },
        None => None,
    }
}

/// The modifiers applied to a total in the order they were written.
pub open spec fn apply_modifiers(t: int, ms: Seq<RollModifier>) -> Option<int>
    decreases ms.len(),
{
    if ms.len() == 0 {
        Some(t)
    } else {
        match apply_modifier(t, ms[0]) {
            Some(u) => apply_modifiers(u, ms.drop_first()),
            None => None,
        }
    }
}

/// The result of evaluating `e` on the die values `pool`, in roll order.
pub open spec fn evaluate(e: ExprView, pool: Seq<usize>) -> Result<ResultView, RollError> {
    match setup_error(e) {
        Some(err) => Err(err),
        None => {
            let items = outcomes(pool, e.faces, e.retention);
            let s = kept_sum(items);
            if !fits_i64(s) {
                Err(RollError::ArithmeticError)
            } else {
                match apply_modifiers(s, e.modifiers) {
                    Some(t) => Ok(ResultView { input: render(e), total: t as i64, rolls: items }),
                    None => Err(RollError::ArithmeticError),
                }
            }
        },
    }
}

/// How many values of `pool` lie below `t`: the number of explosion chains
/// that have ended.
pub open spec fn count_below(pool: Seq<usize>, t: usize) -> nat
    decreases pool.len(),
{
    if pool.len() == 0 {
        0
    } else {
        count_below(pool.drop_last(), t) + if pool.last() < t {
            1nat
        } else {
            0nat
        }
    }
}

/// Whether `pool` is what rolling `e` can draw: every value lies in
/// `1..=faces`; without an explosion there are `count` values; with threshold
/// `t`, the pool is `count` chains in which every value but the last is at
/// least `t` and the last is below it.
pub open spec fn pool_fits(e: ExprView, pool: Seq<usize>) -> bool {
    &&& forall|i: int| 0 <= i < pool.len() ==> 1 <= #[trigger] pool[i] <= e.faces
    &&& match first_explode(e.modifiers) {
        None => pool.len() == e.count,
        Some(t) => count_below(pool, t) == e.count && (pool.len() > 0 ==> pool.last() < t),
    }
}

/// What rolling `e` (with at least one face) may give, whatever the draws:
/// the error that no draw avoids, if any; else an evaluation of a pool that
/// fits `e`, whose outcome values fit `e` as well; or `InvalidModifier` when
/// an explosion chain ran past `MAX_CHAIN`.
pub open spec fn rolled_from_some_pool(e: ExprView, r: Result<RollResult, RollError>) -> bool {
    &&& match setup_error(e) {
        Some(err) => r == Err::<RollResult, RollError>(err),
        None => match r {
            Ok(res) => exists|pool: Seq<usize>|
                pool_fits(e, pool) && evaluate(e, pool) == Ok::<ResultView, RollError>(res@),
            Err(err) => (err == RollError::InvalidModifier && first_explode(e.modifiers) is Some)
                || exists|pool: Seq<usize>|
                pool_fits(e, pool) && evaluate(e, pool) == Err::<ResultView, RollError>(err),
        },
    }
    &&& r matches Ok(res) ==> pool_fits(e, values_of(res@.rolls))
}

/// The die values of a sequence of outcomes.
pub open spec fn values_of(items: Seq<RollItem>) -> Seq<usize> {
    items.map_values(|i: RollItem| i.value)
}

pub open spec fn result_view(r: Result<RollResult, RollError>) -> Result<ResultView, RollError> {
    match r {
        Ok(res) => Ok(res@),
        Err(e) => Err(e),
    }
}

#[verifier::external_type_specification]
#[verifier::external_body]
pub struct ExThreadRng(rand::rngs::ThreadRng);

/// Relies on `rand::thread_rng`: a handle to the thread's random generator.
#[verifier::external_body]
fn thread_rng() -> (r: ThreadRng) {
    rand::thread_rng()
}

/// Relies on `rand::Rng::gen_range`: a value drawn from `1..=faces`, which
/// is not empty since `faces >= 1`.
#[verifier::external_body]
fn draw_die(rng: &mut ThreadRng, faces: usize) -> (r: usize)
    requires
        faces >= 1,
    ensures
        1 <= r <= faces,
{
    rng.gen_range(1..=faces)
}

pub fn quality(value: usize, faces: usize) -> (r: RollQuality)
    ensures
        r == quality_of(value, faces),
{
    if value == faces {
        RollQuality::Good
    } else if value == 1 {
        RollQuality::Bad
    } else {
        RollQuality::Regular
    }
}

fn rank_of(pool: &Vec<usize>, i: usize, highest: bool) -> (r: usize)
    requires
        i < pool.len(),
    ensures
        r == rank(pool@, i as int, highest),
{
    let mut k: usize = 0;
    let mut r: usize = 0;
    while k < pool.len()
        invariant
            k <= pool.len(),
            i < pool.len(),
            r == rank_upto(pool@, i as int, k as int, highest),
            r <= k,
        decreases pool.len() - k,
    {
        let before = if highest {
            pool[k] < pool[i] || (pool[k] == pool[i] && k < i)
        } else {
            pool[k] > pool[i] || (pool[k] == pool[i] && k < i)
        };
        if before {
            r = r + 1;
        }
        k = k + 1;
    }
    r
}

/// Annotates the die values of `pool` and applies the retention policy.
pub fn retain(pool: &Vec<usize>, faces: usize, retention: RollRetention) -> (r: Vec<RollItem>)
    ensures
        r@ == outcomes(pool@, faces, retention),
{
    let mut items: Vec<RollItem> = Vec::new();
    let mut i: usize = 0;
    while i < pool.len()
        invariant
            i <= pool.len(),
            items@ =~= outcomes(pool@, faces, retention).subrange(0, i as int),
        decreases pool.len() - i,
    {
        let retained = match retention {
            RollRetention::All => true,
            RollRetention::Highest(n) => {
                let rk = rank_of(pool, i, true);
                rk as u128 + n as u128 >= pool.len() as u128
            },
            RollRetention::Lowest(n) => {
                let rk = rank_of(pool, i, false);
                rk as u128 + n as u128 >= pool.len() as u128
            },
        };
        items.push(RollItem { value: pool[i], retained, quality: quality(pool[i], faces) });
        i = i + 1;
    }
    items
}

proof fn lemma_kept_sum_grows(items: Seq<RollItem>, k: int)
    requires
        0 <= k <= items.len(),
    ensures
        kept_sum(items.subrange(0, k)) <= kept_sum(items),
        kept_sum(items) >= 0,
    decreases items.len(),
{
    if items.len() > 0 {
        if k < items.len() {
            assert(items.drop_last().subrange(0, k) =~= items.subrange(0, k));
            lemma_kept_sum_grows(items.drop_last(), k);
        } else {
            assert(items.subrange(0, k) =~= items);
            lemma_kept_sum_grows(items.drop_last(), 0);
        }
    }
}

/// The sum of the retained values, if it fits in `i64`.
fn kept_total(items: &Vec<RollItem>) -> (r: Option<i64>)
    ensures
        match r {
            Some(t) => fits_i64(kept_sum(items@)) && t == kept_sum(items@),
            None => !fits_i64(kept_sum(items@)),
        },
{
    let mut acc: u64 = 0;
    let mut i: usize = 0;
    while i < items.len()
        invariant
            i <= items.len(),
            acc == kept_sum(items@.subrange(0, i as int)),
            acc <= i64::MAX,
        decreases items.len() - i,
    {
        let it = items[i];
        proof {
            assert(items@.subrange(0, i as int + 1).drop_last() =~= items@.subrange(0, i as int));
        }
        if it.retained {
            if it.value as u64 > (i64::MAX as u64) - acc {
                proof {
                    lemma_kept_sum_grows(items@, i as int + 1);
                }
                return None;
            }
            acc = acc + it.value as u64;
        }
        i = i + 1;
    }
    proof {
        assert(items@.subrange(0, i as int) =~= items@);
    }
    Some(acc as i64)
}

/// One modifier applied to the running total.
fn apply_one(t: i64, m: RollModifier) -> (r: Option<i64>)
    ensures
        match apply_modifier(t as int, m) {
            Some(v) => r == Some(v as i64),
            None => r is None,
        },
{
    let x: i128 = t as i128;
    let v: i128 = match m {
        RollModifier::Add(n) => x + n as i128,
        RollModifier::Subtract(n) => x - n as i128,
        RollModifier::Multiply(n) => {
            let y: i128 = n as i128;
            assert(-0x8000_0000_0000_0000_0000_0000_0000_0000 < x * y
                < 0x7fff_ffff_ffff_ffff_ffff_ffff_ffff_ffff) by (nonlinear_arith)
                requires
                    -0x8000_0000_0000_0000 <= x <= 0x7fff_ffff_ffff_ffff,
                    0 <= y <= 0xffff_ffff_ffff_ffff,
            ;
            x * y
        },
        RollModifier::Divide(n) => {
            if n == 0 {
                return None;
            }
            let d: u128 = n as u128;
            if x >= 0 {
                let q: u128 = (x as u128) / d;
                assert(q <= x) by (nonlinear_arith)
                    requires
                        q == (x as u128) / d,
                        d >= 1,
                        x >= 0,
                ;
                q as i128
            } else {
                let q: u128 = ((-x) as u128) / d;
                assert(q <= -x) by (nonlinear_arith)
                    requires
                        q == ((-x) as u128) / d,
                        d >= 1,
                        x < 0,
                ;
                -(q as i128)
            }
        },
        RollModifier::Explode(_) => x,
    };
    if v < i64::MIN as i128 || v > i64::MAX as i128 {
        None
    } else {
        Some(v as i64)
    }
}

impl RollExpression {
    /// The threshold of the first explode modifier, checked against the faces.
    pub fn explodes_at(&self) -> (r: Result<Option<usize>, RollError>)
        ensures
            r == explode_threshold(self@),
    {
        let mut i: usize = 0;
        assert(self.modifiers@.subrange(0, self.modifiers@.len() as int) =~= self.modifiers@);
        while i < self.modifiers.len()
            invariant
                i <= self.modifiers.len(),
                first_explode(self.modifiers@) == first_explode(
                    self.modifiers@.subrange(i as int, self.modifiers@.len() as int),
                ),
            decreases self.modifiers.len() - i,
        {
            let ghost rest = self.modifiers@.subrange(i as int, self.modifiers@.len() as int);
            assert(rest.drop_first() =~= self.modifiers@.subrange(
                i as int + 1,
                self.modifiers@.len() as int,
            ));
            match self.modifiers[i] {
                RollModifier::Explode(n) => {
                    if n >= 1 && n <= self.faces {
                        return Ok(Some(n));
                    } else {
                        return Err(RollError::InvalidModifier);
                    }
                },
                _ => {},
            }
            i = i + 1;
        }
        Ok(None)
    }

    fn setup_check(&self) -> (r: Result<Option<usize>, RollError>)
        ensures
            match setup_error(self@) {
                Some(e) => r == Err::<Option<usize>, RollError>(e),
                None => r == explode_threshold(self@),
            },
    {
        let t = self.explodes_at();
        if t.is_err() {
            return Err(RollError::InvalidModifier);
        }
        match self.retention {
            RollRetention::Highest(n) => {
                if n > self.count {
                    return Err(RollError::InvalidRetention);
                }
            },
            RollRetention::Lowest(n) => {
                if n > self.count {
                    return Err(RollError::InvalidRetention);
                }
            },
            RollRetention::All => {},
        }
        t
    }

    /// Evaluates the expression on the given die values, in roll order
    /// (explosion chains included).
    pub fn roll_from_pool(&self, pool: &Vec<usize>) -> (r: Result<RollResult, RollError>)
        ensures
            result_view(r) == evaluate(self@, pool@),
    {
        if let Err(e) = self.setup_check() {
            return Err(e);
        }
        let rolls = retain(pool, self.faces, self.retention);
        let mut total = match kept_total(&rolls) {
            Some(t) => t,
            None => {
                return Err(RollError::ArithmeticError);
            },
        };
        let ghost s = kept_sum(rolls@);
        let mut i: usize = 0;
        assert(self.modifiers@.subrange(0, self.modifiers@.len() as int) =~= self.modifiers@);
        while i < self.modifiers.len()
            invariant
                i <= self.modifiers.len(),
                setup_error(self@) is None,
                rolls@ == outcomes(pool@, self.faces, self.retention),
                s == kept_sum(rolls@),
                fits_i64(s),
                apply_modifiers(s, self.modifiers@) == apply_modifiers(
                    total as int,
                    self.modifiers@.subrange(i as int, self.modifiers@.len() as int),
                ),
            decreases self.modifiers.len() - i,
        {
            let ghost rest = self.modifiers@.subrange(i as int, self.modifiers@.len() as int);
            assert(rest.drop_first() =~= self.modifiers@.subrange(
                i as int + 1,
                self.modifiers@.len() as int,
            ));
            assert(rest[0] == self.modifiers@[i as int]);
            match apply_one(total, self.modifiers[i]) {
                Some(t) => {
                    total = t;
                },
                None => {
                    return Err(RollError::ArithmeticError);
                },
            }
            i = i + 1;
        }
        let input = self.canonical();
        Ok(RollResult { input, total, rolls })
    }

    /// Rolls the expression with fresh random draws. Every value lies in
    /// `1..=faces`, and every explosion chain ends on a value below the
    /// threshold. An explosion chain longer than `MAX_CHAIN` gives up the roll
    /// with `InvalidModifier`.
    pub fn roll_dice(&self, rng: &mut ThreadRng) -> (r: Result<RollResult, RollError>)
        requires
            self.faces >= 1,
        ensures
            rolled_from_some_pool(self@, r),
    {
        let threshold = match self.setup_check() {
            Ok(t) => t,
            Err(e) => {
                return Err(e);
            },
        };
        let mut pool: Vec<usize> = Vec::new();
        let mut d: usize = 0;
        while d < self.count
            invariant
                d <= self.count,
                self.faces >= 1,
                setup_error(self@) is None,
                explode_threshold(self@) == Ok::<Option<usize>, RollError>(threshold),
                threshold == first_explode(self@.modifiers),
                forall|i: int| 0 <= i < pool@.len() ==> 1 <= #[trigger] pool@[i] <= self.faces,
                match first_explode(self@.modifiers) {
                    None => pool@.len() == d,
                    Some(t) => count_below(pool@, t) == d && (pool@.len() > 0 ==> pool@.last() < t),
                },
            decreases self.count - d,
        {
            let v = draw_die(rng, self.faces);
            let ghost prev = pool@;
            pool.push(v);
            assert(pool@.drop_last() =~= prev);
            if let Some(t) = threshold {
                let mut cur = v;
                let mut budget: usize = MAX_CHAIN;
                while cur >= t
                    invariant
                        self.faces >= 1,
                        setup_error(self@) is None,
                        pool@.len() > 0,
                        pool@.last() == cur,
                        first_explode(self@.modifiers) == Some(t),
                        forall|i: int| 0 <= i < pool@.len() ==> 1 <= #[trigger] pool@[i] <= self.faces,
                        count_below(pool@, t) == d + if cur < t {
                            1nat
                        } else {
                            0nat
                        },
                    decreases budget,
                {
                    if budget == 0 {
                        return Err(RollError::InvalidModifier);
                    }
                    budget = budget - 1;
                    cur = draw_die(rng, self.faces);
                    let ghost prev = pool@;
                    pool.push(cur);
                    assert(pool@.drop_last() =~= prev);
                }
            }
            d = d + 1;
        }
        let r = self.roll_from_pool(&pool);
        assert(pool_fits(self@, pool@));
        if r.is_ok() {
            assert(values_of(outcomes(pool@, self.faces, self.retention)) =~= pool@);
        }
        r
    }
}

impl Roll for RollExpression {
    /// An expression without faces is no valid notation; any other rolls as
    /// `roll_dice` does.
    open spec fn rolled(&self, r: Result<RollResult, RollError>) -> bool {
        if self.faces == 0 {
            r == Err::<RollResult, RollError>(RollError::InvalidNotation)
        } else {
            rolled_from_some_pool(self@, r)
        }
    }

    /// Rolls with the thread's random generator; an expression without faces
    /// is no valid notation.
    fn roll(&self) -> Result<RollResult, RollError> {
        if self.faces == 0 {
            return Err(RollError::InvalidNotation);
        }
        let mut rng = thread_rng();
        self.roll_dice(&mut rng)
    }
}

} // verus!
