//! Dice notation: parsing (`3d6h2+1`, `d%`, `2d6!`) into roll expressions,
//! and evaluating those expressions into annotated die outcomes and a total.
use vstd::prelude::*;

pub mod engine;
pub mod laws;
pub mod render;
pub mod round_trip;
pub mod standard;

verus! {

/// Which of the rolled dice count toward the total.
#[derive(Debug, Clone, Copy, PartialEq, Eq, Structural)]
pub enum RollRetention {
    Highest(usize),
    Lowest(usize),
    All,
}

/// How a die value looks: the maximum (`Good`), a one (`Bad`), or neither.
#[derive(Debug, Clone, Copy, PartialEq, Eq, Structural)]
pub enum RollQuality {
    Good,
    Regular,
    Bad,
}

/// One die outcome of an evaluated expression.
#[derive(Debug, Clone, Copy, PartialEq, Eq, Structural)]
pub struct RollItem {
    pub value: usize,
    pub retained: bool,
    pub quality: RollQuality,
}

/// The evaluation of one expression: its canonical notation, its total and
/// every die rolled, explosions included, in roll order.
#[derive(Debug)]
pub struct RollResult {
    pub input: String,
    pub total: i64,
    pub rolls: Vec<RollItem>,
}

/// A modifier of an expression: arithmetic on the total, or an explosion
/// threshold.
#[derive(Debug, Clone, Copy, PartialEq, Eq, Structural)]
pub enum RollModifier {
    Add(usize),
    Subtract(usize),
    Multiply(usize),
    Divide(usize),
    Explode(usize),
}

/// One die group: `count` dice of `faces` faces, a retention policy and the
/// modifiers in the order they were written.
#[derive(Debug)]
pub struct RollExpression {
    pub faces: usize,
    pub count: usize,
    pub retention: RollRetention,
    pub modifiers: Vec<RollModifier>,
}

/// Why a notation could not be parsed or an expression could not be evaluated.
#[derive(Debug, Clone, Copy, PartialEq, Eq, Structural)]
pub enum RollError {
    /// The text does not follow the dice grammar.
    InvalidNotation,
    /// An explosion threshold lies outside `1..=faces`; or, when rolling,
    /// an explosion chain ran past `engine::MAX_CHAIN` extra dice without
    /// ending (a threshold of 1 never ends).
    InvalidModifier,
    /// More dice are to be kept than were rolled.
    InvalidRetention,
    /// A division by zero, or a total outside the range of `i64`.
    ArithmeticError,
}

/// The mathematical value of a `RollExpression`.
pub struct ExprView {
    pub faces: usize,
    pub count: usize,
    pub retention: RollRetention,
    pub modifiers: Seq<RollModifier>,
}

impl View for RollExpression {
    type V = ExprView;

    open spec fn view(&self) -> ExprView {
        ExprView {
            faces: self.faces,
            count: self.count,
            retention: self.retention,
            modifiers: self.modifiers@,
        }
    }
}

/// The mathematical value of a `RollResult`.
pub struct ResultView {
    pub input: Seq<char>,
    pub total: i64,
    pub rolls: Seq<RollItem>,
}

impl View for RollResult {
    type V = ResultView;

    open spec fn view(&self) -> ResultView {
        ResultView { input: self.input@, total: self.total, rolls: self.rolls@ }
    }
}

/// The views of a sequence of expressions.
pub open spec fn views_of(es: Seq<RollExpression>) -> Seq<ExprView> {
    es.map_values(|e: RollExpression| e@)
}

/// Evaluates an expression with fresh random draws.
pub trait Roll {
    /// What may come of rolling `self`, whatever the draws were.
    spec fn rolled(&self, r: Result<RollResult, RollError>) -> bool;

    fn roll(&self) -> (r: Result<RollResult, RollError>)
        ensures
            self.rolled(r),
    ;
}

/// Turns notation text into expressions.
pub trait Notation {
    /// What the notation makes of a text.
    spec fn notation(s: Seq<char>) -> Result<Seq<ExprView>, RollError>;

    fn parse_from_str(input: &str) -> (r: Result<Vec<RollExpression>, RollError>)
        ensures
            match r {
                Ok(es) => Self::notation(input@) == Ok::<Seq<ExprView>, RollError>(views_of(es@)),
                Err(e) => Self::notation(input@) == Err::<Seq<ExprView>, RollError>(e),
            },
    ;
}

} // verus!
