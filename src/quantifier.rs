use vstd::prelude::*;

verus! {

/// How many times the node it is attached to may repeat.
#[derive(Debug, Clone, Copy, PartialEq, Eq, Structural)]
pub enum Quantifier {
    /// `?`
    ZeroOrOne,
    /// `*`
    ZeroOrMore,
    /// `+`
    OneOrMore,
    /// `{n}`: exactly `n` repetitions.
    Literal(usize),
}

} // verus!
