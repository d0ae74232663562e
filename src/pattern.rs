use vstd::prelude::*;

use crate::quantifier::Quantifier;

verus! {

/// One node of a compiled pattern.
#[derive(Debug)]
pub enum Pattern {
    /// One given character.
    Literal(char),
    /// `\d`: an ASCII digit.
    Digit,
    /// `\w`: an ASCII letter or digit, or `_`.
    Alphanumeric,
    /// `.`: any character.
    Any,
    /// `[...]`: a character that one of the members accepts.
    PositiveGroup(Vec<Pattern>),
    /// `[^...]`: a character that none of the members accepts.
    NegativeGroup(Vec<Pattern>),
    /// `(a|b|...)`: its capture index and its branches.
    Alternate(usize, Vec<Vec<Pattern>>),
    /// `^`
    StartOfString,
    /// `$`: the end of the input.
    EndOfString,
    /// A `+` token before it is attached to the node it follows.
    OneOrMore,
    /// A `*` token before it is attached to the node it follows.
    ZeroOrMore,
    /// A `?` token before it is attached to the node it follows.
    OneOrZero,
    /// A `{n}` token before it is attached to the node it follows.
    LiteralQuantifier(usize),
    /// A node with the quantifier that followed it.
    PatternWithQuantifier(Box<Pattern>, Quantifier),
    /// `(...)`: its capture index and its contents.
    CaptureGroup(usize, Vec<Pattern>),
    /// `\n`: the text that group `n` captured earlier in the same attempt.
    BackReference(usize),
}

/// Number of nodes in a tree: the measure that every recursion over patterns decreases.
pub open spec fn node_size(p: Pattern) -> nat
    decreases p,
{
    match p {
        Pattern::PositiveGroup(v) => 1 + seq_size(v@),
        Pattern::NegativeGroup(v) => 1 + seq_size(v@),
        Pattern::CaptureGroup(_, v) => 1 + seq_size(v@),
        Pattern::Alternate(_, bs) => 1 + branches_size(bs@),
        Pattern::PatternWithQuantifier(b, _) => 1 + node_size(*b),
        _ => 1,
    }
}

pub open spec fn seq_size(s: Seq<Pattern>) -> nat
    decreases s,
{
    if s.len() == 0 {
        0
    } else {
        node_size(s[0]) + seq_size(s.drop_first())
    }
}

pub open spec fn branches_size(bs: Seq<Vec<Pattern>>) -> nat
    decreases bs,
{
    if bs.len() == 0 {
        0
    } else {
        seq_size(bs[0]@) + branches_size(bs.drop_first())
    }
}

pub open spec fn is_digit(c: char) -> bool {
    '0' <= c && c <= '9'
}

/// `\w`: an ASCII letter or digit, or `_`.
pub open spec fn is_word(c: char) -> bool {
    ('a' <= c && c <= 'z') || ('A' <= c && c <= 'Z') || is_digit(c) || c == '_'
}

/// Whether a node that stands for one character accepts `c`.
pub open spec fn accepts(p: Pattern, c: char) -> bool
    decreases node_size(p), 0nat, 0nat,
{
    match p {
        Pattern::Literal(x) => c == x,
        Pattern::Digit => is_digit(c),
        Pattern::Alphanumeric => is_word(c),
        Pattern::Any => true,
        Pattern::PositiveGroup(v) => any_accepts(v@, c),
        Pattern::NegativeGroup(v) => !any_accepts(v@, c),
        _ => false,
    }
}

/// Some member of a bracketed class accepts `c`.
pub open spec fn any_accepts(items: Seq<Pattern>, c: char) -> bool
    decreases seq_size(items), 1nat, items.len(),
{
    if items.len() == 0 {
        false
    } else {
        accepts(items[0], c) || any_accepts(items.drop_first(), c)
    }
}

/// A node that may match nothing when the input has run out.
pub open spec fn optional(p: Pattern) -> bool
    decreases node_size(p), 0nat, 0nat,
{
    match p {
        Pattern::PatternWithQuantifier(_, q) => q is ZeroOrOne || q is ZeroOrMore,
        Pattern::Alternate(_, bs) => branches_have_optional(bs@),
        _ => false,
    }
}

/// Every node of a branch is optional, so the branch as a whole may match nothing.
pub open spec fn seq_all_optional(s: Seq<Pattern>) -> bool
    decreases seq_size(s), 1nat, s.len(),
{
    if s.len() == 0 {
        true
    } else {
        optional(s[0]) && seq_all_optional(s.drop_first())
    }
}

/// Some branch is optional as a whole.
pub open spec fn branches_have_optional(bs: Seq<Vec<Pattern>>) -> bool
    decreases branches_size(bs), 2nat, bs.len(),
{
    if bs.len() == 0 {
        false
    } else {
        seq_all_optional(bs[0]@) || branches_have_optional(bs.drop_first())
    }
}

/// What `Pattern::matches` gives on `s`: the length consumed, in characters.
pub open spec fn single_match(p: Pattern, s: Seq<char>) -> Option<nat> {
    if p is EndOfString {
        if s.len() == 0 {
            Some(0)
        } else {
            None
        }
    } else if s.len() > 0 && accepts(p, s[0]) {
        Some(1)
    } else {
        None
    }
}

fn any_item_accepts(items: &[Pattern], c: char) -> (r: bool)
    ensures
        r == any_accepts(items@, c),
    decreases seq_size(items@), 1nat, items@.len(),
{
    if items.len() == 0 {
        false
    } else {
        let rest = &items[1..items.len()];
        assert(rest@ == items@.drop_first());
        items[0].accepts_char(c) || any_item_accepts(rest, c)
    }
}

fn seq_every_optional(s: &[Pattern]) -> (r: bool)
    ensures
        r == seq_all_optional(s@),
    decreases seq_size(s@), 1nat, s@.len(),
{
    if s.len() == 0 {
        true
    } else {
        let rest = &s[1..s.len()];
        assert(rest@ == s@.drop_first());
        s[0].is_optional() && seq_every_optional(rest)
    }
}

fn branches_any_optional(bs: &[Vec<Pattern>]) -> (r: bool)
    ensures
        r == branches_have_optional(bs@),
    decreases branches_size(bs@), 2nat, bs@.len(),
{
    if bs.len() == 0 {
        false
    } else {
        let rest = &bs[1..bs.len()];
        assert(rest@ == bs@.drop_first());
        seq_every_optional(bs[0].as_slice()) || branches_any_optional(rest)
    }
}

impl Pattern {
    /// Matches a one-character node (or `$`) at the start of `s`.
    /// Returns the number of characters consumed (lengths count characters,
    /// not bytes, throughout the library).
    pub fn matches(&self, s: &[char]) -> (r: Option<usize>)
        ensures
            r matches Some(n) ==> single_match(*self, s@) == Some(n as nat),
            r is None ==> single_match(*self, s@) is None,
    {
        match self {
            Pattern::EndOfString => {
                if s.len() == 0 {
                    Some(0)
                } else {
                    None
                }
            },
            _ => {
                let length = self.char_matches(s);
                if length > 0 {
                    Some(length)
                } else {
                    None
                }
            },
        }
    }

    /// 1 when the first character of `s` is accepted by this node, else 0.
    fn char_matches(&self, s: &[char]) -> (r: usize)
        ensures
            r == (if s@.len() > 0 && accepts(*self, s@[0]) {
                1usize
            } else {
                0usize
            }),
    {
        if s.len() == 0 {
            return 0;
        }
        if self.accepts_char(s[0]) {
            1
        } else {
            0
        }
    }

    fn accepts_char(&self, c: char) -> (r: bool)
        ensures
            r == accepts(*self, c),
        decreases node_size(*self), 0nat, 0nat,
    {
        match self {
            Pattern::Literal(p) => c == *p,
            Pattern::Digit => '0' <= c && c <= '9',
            Pattern::Alphanumeric => ('a' <= c && c <= 'z') || ('A' <= c && c <= 'Z') || ('0'
                <= c && c <= '9') || c == '_',
            Pattern::Any => true,
            Pattern::PositiveGroup(p) => any_item_accepts(p.as_slice(), c),
            Pattern::NegativeGroup(p) => !any_item_accepts(p.as_slice(), c),
            _ => false,
        }
    }

    /// Whether this node may match nothing once the input is exhausted:
    /// `?` and `*`, and an alternation with a branch whose nodes are all optional.
    pub fn is_optional(&self) -> (r: bool)
        ensures
            r == optional(*self),
        decreases node_size(*self), 0nat, 0nat,
    {
        match self {
            Pattern::PatternWithQuantifier(_, q) => match q {
                Quantifier::ZeroOrOne | Quantifier::ZeroOrMore => true,
                _ => false,
            },
            Pattern::Alternate(_, alts) => branches_any_optional(alts.as_slice()),
            _ => false,
        }
    }
}

} // verus!
