use vstd::prelude::*;

use crate::captures::{capture_of, set_capture, Captures};
use crate::parse::{chars_of, number_groups, numbered_seq, parse_ok, parses, seq_groups, CompileError};
use crate::pattern::{branches_size, node_size, optional, seq_size, single_match, Pattern};
use crate::quantifier::Quantifier;

verus! {

/// Mathematical form of a capture store.
pub type CapSeq = Seq<Option<Seq<char>>>;

/// A successful match: characters consumed, and the captures after it.
pub type Outcome = Option<(nat, CapSeq)>;

pub open spec fn outcome_of(r: Option<(usize, Captures)>) -> Outcome {
    match r {
        Some((n, c)) => Some((n as nat, c@)),
        None => None,
    }
}

pub open spec fn shift(n: nat, r: Outcome) -> Outcome {
    match r {
        Some((l, c)) => Some((n + l, c)),
        None => None,
    }
}

/// The input has run out: every node left in the sequence must be an end
/// anchor or optional.
pub open spec fn tail_ok(pats: Seq<Pattern>) -> bool
    decreases pats.len(),
{
    if pats.len() == 0 {
        true
    } else if pats[0] is EndOfString || optional(pats[0]) {
        tail_ok(pats.drop_first())
    } else {
        false
    }
}

/// Matches a prefix of `inp` against the whole sequence `pats`.
pub open spec fn match_seq(inp: Seq<char>, pats: Seq<Pattern>, caps: CapSeq) -> Outcome
    decreases seq_size(pats), 3nat, 0nat,
{
    if pats.len() == 0 {
        Some((0, caps))
    } else if inp.len() == 0 {
        if tail_ok(pats) {
            Some((0, caps))
        } else {
            None
        }
    } else {
        match_node(inp, pats[0], pats.drop_first(), caps)
    }
}

/// Matches a prefix of `inp` against the single node `p`.
pub open spec fn match_single(inp: Seq<char>, p: Pattern, caps: CapSeq) -> Outcome
    decreases node_size(p), 3nat, 0nat,
{
    if inp.len() == 0 {
        if p is EndOfString || optional(p) {
            Some((0, caps))
        } else {
            None
        }
    } else {
        match_node(inp, p, Seq::empty(), caps)
    }
}

/// Matches `p` followed by `rest` on a non-empty `inp`.
pub open spec fn match_node(inp: Seq<char>, p: Pattern, rest: Seq<Pattern>, caps: CapSeq) -> Outcome
    decreases node_size(p) + seq_size(rest), 2nat, 0nat,
{
    match p {
        Pattern::CaptureGroup(ci, inner) => group_try(
            inp,
            inner@,
            ci as int,
            rest,
            caps,
            inp.len(),
        ),
        Pattern::Alternate(ci, bs) => alt_try(inp, bs@, ci as int, rest, caps),
        Pattern::BackReference(i) => match capture_of(caps, i as int) {
            Some(s) => if s.len() <= inp.len() && inp.subrange(0, s.len() as int) == s {
                shift(s.len(), match_seq(inp.skip(s.len() as int), rest, caps))
            } else {
                None
            },
            None => None,
        },
        Pattern::PatternWithQuantifier(b, q) => quant(inp, *b, q, rest, caps),
        _ => match single_match(p, inp) {
            Some(n) => if n <= inp.len() {
                shift(n, match_seq(inp.skip(n as int), rest, caps))
            } else {
                None
            },
            None => None,
        },
    }
}

/// A capture group: the inner sequence on the prefix of length `k`, then
/// shorter prefixes, down to length 1.
pub open spec fn group_try(
    inp: Seq<char>,
    inner: Seq<Pattern>,
    ci: int,
    rest: Seq<Pattern>,
    caps: CapSeq,
    k: nat,
) -> Outcome
    decreases 1 + seq_size(inner) + seq_size(rest), 1nat, k,
{
    if k == 0 || k > inp.len() {
        None
    } else {
        let prefix = inp.subrange(0, k as int);
        match match_seq(prefix, inner, caps) {
            Some((len, c2)) => if len <= k {
                match match_seq(
                    inp.skip(len as int),
                    rest,
                    set_capture(c2, ci, prefix.subrange(0, len as int)),
                ) {
                    Some((rl, c4)) => Some((len + rl, c4)),
                    None => group_try(inp, inner, ci, rest, caps, (k - 1) as nat),
                }
            } else {
                None
            },
            None => group_try(inp, inner, ci, rest, caps, (k - 1) as nat),
        }
    }
}

/// An alternation: each branch in turn, at the length that branch matched.
pub open spec fn alt_try(
    inp: Seq<char>,
    bs: Seq<Vec<Pattern>>,
    ci: int,
    rest: Seq<Pattern>,
    caps: CapSeq,
) -> Outcome
    decreases 1 + branches_size(bs) + seq_size(rest), 1nat, bs.len(),
{
    if bs.len() == 0 {
        None
    } else {
        match match_seq(inp, bs[0]@, caps) {
            Some((ml, c2)) => if ml <= inp.len() {
                match match_seq(
                    inp.skip(ml as int),
                    rest,
                    set_capture(c2, ci, inp.subrange(0, ml as int)),
                ) {
                    Some((rl, c4)) => Some((ml + rl, c4)),
                    None => alt_try(inp, bs.drop_first(), ci, rest, caps),
                }
            } else {
                None
            },
            None => alt_try(inp, bs.drop_first(), ci, rest, caps),
        }
    }
}

pub open spec fn sum(s: Seq<nat>) -> nat
    decreases s.len(),
{
    if s.len() == 0 {
        0
    } else {
        sum(s.drop_last()) + s.last()
    }
}

pub open spec fn min_repeats(q: Quantifier) -> nat {
    match q {
        Quantifier::Literal(n) => n as nat,
        Quantifier::OneOrMore => 1,
        _ => 0,
    }
}

/// The quantifier allows no more repetitions after `count` of them.
pub open spec fn capped(q: Quantifier, count: nat) -> bool {
    match q {
        Quantifier::ZeroOrOne => count >= 1,
        Quantifier::Literal(n) => count >= n,
        _ => false,
    }
}

/// Greedy repetition of `inner` on `rem`, each repetition starting from `caps0`.
/// `lens` holds the lengths of the repetitions so far and `tcaps` the captures of
/// the last one; the result is both, once repetition stops: at the quantifier's
/// cap, at a failed or empty repetition.
pub open spec fn greedy(
    rem: Seq<char>,
    inner: Pattern,
    q: Quantifier,
    caps0: CapSeq,
    lens: Seq<nat>,
    tcaps: CapSeq,
) -> (Seq<nat>, CapSeq)
    decreases 1 + node_size(inner), 0nat, rem.len(),
{
    if capped(q, lens.len()) {
        (lens, tcaps)
    } else {
        match match_single(rem, inner, caps0) {
            Some((len, sub)) => if 0 < len <= rem.len() {
                greedy(rem.skip(len as int), inner, q, caps0, lens.push(len), sub)
            } else {
                (lens, tcaps)
            },
            None => (lens, tcaps),
        }
    }
}

/// Gives back repetitions one at a time until the rest of the sequence matches.
pub open spec fn backtrack(
    inp: Seq<char>,
    lens: Seq<nat>,
    min: nat,
    rest: Seq<Pattern>,
    tcaps: CapSeq,
) -> Outcome
    decreases seq_size(rest), 4nat, lens.len(),
{
    if lens.len() < min || sum(lens) > inp.len() {
        None
    } else {
        match match_seq(inp.skip(sum(lens) as int), rest, tcaps) {
            Some((rl, c)) => Some((sum(lens) + rl, c)),
            None => if lens.len() == 0 {
                None
            } else {
                backtrack(inp, lens.drop_last(), min, rest, tcaps)
            },
        }
    }
}

/// A quantified node followed by `rest`.
pub open spec fn quant(
    inp: Seq<char>,
    inner: Pattern,
    q: Quantifier,
    rest: Seq<Pattern>,
    caps: CapSeq,
) -> Outcome
    decreases 1 + node_size(inner) + seq_size(rest), 1nat, 0nat,
{
    let (lens, tcaps) = greedy(inp, inner, q, caps, Seq::empty(), caps);
    let total = sum(lens);
    match q {
        Quantifier::ZeroOrOne => if total <= inp.len() {
            shift(total, match_seq(inp.skip(total as int), rest, tcaps))
        } else {
            None
        },
        Quantifier::Literal(n) => if lens.len() == n && total <= inp.len() {
            shift(total, match_seq(inp.skip(total as int), rest, tcaps))
        } else {
            None
        },
        _ => backtrack(inp, lens, min_repeats(q), rest, tcaps),
    }
}

pub open spec fn lens_view(s: Seq<usize>) -> Seq<nat> {
    s.map_values(|x: usize| x as nat)
}

fn tail_is_optional(pats: &[Pattern]) -> (r: bool)
    ensures
        r == tail_ok(pats@),
    decreases pats@.len(),
{
    if pats.len() == 0 {
        true
    } else if matches!(pats[0], Pattern::EndOfString) || pats[0].is_optional() {
        let rest = &pats[1..pats.len()];
        assert(rest@ == pats@.drop_first());
        tail_is_optional(rest)
    } else {
        false
    }
}

/// The length of group `i`'s text when `input` starts with it.
fn backref_len(input: &[char], caps: &Captures, i: usize) -> (r: Option<usize>)
    ensures
        r matches Some(n) ==> (capture_of(caps@, i as int) matches Some(s) && s.len() == n
            && n <= input@.len() && input@.subrange(0, n as int) == s),
        r is None ==> !(capture_of(caps@, i as int) matches Some(s) && s.len() <= input@.len()
            && input@.subrange(0, s.len() as int) == s),
{
    if i < 1 || i > caps.0.len() {
        return None;
    }
    match &caps.0[i - 1] {
        None => None,
        Some(s) => {
            assert(capture_of(caps@, i as int) == Some(s@));
            if s.len() > input.len() {
                return None;
            }
            let mut j: usize = 0;
            while j < s.len()
                invariant
                    j <= s@.len(),
                    s@.len() <= input@.len(),
                    capture_of(caps@, i as int) == Some(s@),
                    forall|k: int| 0 <= k < j ==> s@[k] == input@[k],
                decreases s@.len() - j,
            {
                if s[j] != input[j] {
                    assert(input@.subrange(0, s@.len() as int)[j as int] != s@[j as int]);
                    assert(input@.subrange(0, s@.len() as int) != s@);
                    return None;
                }
                j = j + 1;
            }
            assert(input@.subrange(0, s@.len() as int) =~= s@);
            Some(s.len())
        },
    }
}

/// Matches a prefix of `input` against the whole of `patterns`; on success gives
/// the number of characters consumed and the captures made.
pub fn try_match(input: &[char], patterns: &[Pattern], captures: Captures) -> (r: Option<
    (usize, Captures),
>)
    ensures
        outcome_of(r) == match_seq(input@, patterns@, captures@),
        r matches Some((n, _)) ==> n <= input@.len(),
    decreases seq_size(patterns@), 3nat, 0nat,
{
    if patterns.len() == 0 {
        return Some((0, captures));
    }
    if input.len() == 0 {
        if tail_is_optional(patterns) {
            return Some((0, captures));
        } else {
            return None;
        }
    }
    let rest = &patterns[1..patterns.len()];
    assert(rest@ == patterns@.drop_first());
    try_node(input, &patterns[0], rest, captures)
}

fn try_single(input: &[char], p: &Pattern, captures: Captures) -> (r: Option<(usize, Captures)>)
    ensures
        outcome_of(r) == match_single(input@, *p, captures@),
        r matches Some((n, _)) ==> n <= input@.len(),
    decreases node_size(*p), 3nat, 0nat,
{
    if input.len() == 0 {
        if matches!(p, Pattern::EndOfString) || p.is_optional() {
            Some((0, captures))
        } else {
            None
        }
    } else {
        let empty: Vec<Pattern> = Vec::new();
        try_node(input, p, empty.as_slice(), captures)
    }
}

fn try_node(input: &[char], p: &Pattern, rest: &[Pattern], captures: Captures) -> (r: Option<
    (usize, Captures),
>)
    ensures
        outcome_of(r) == match_node(input@, *p, rest@, captures@),
        r matches Some((n, _)) ==> n <= input@.len(),
    decreases node_size(*p) + seq_size(rest@), 2nat, 0nat,
{
    match p {
        Pattern::CaptureGroup(ci, inner) => try_group(
            input,
            inner.as_slice(),
            *ci,
            rest,
            captures,
            input.len(),
        ),
        Pattern::Alternate(ci, bs) => try_alt(input, bs.as_slice(), *ci, rest, captures),
        Pattern::BackReference(i) => match backref_len(input, &captures, *i) {
            Some(len) => {
                let sub = &input[len..input.len()];
                match try_match(sub, rest, captures) {
                    Some((l, c)) => Some((len + l, c)),
                    None => None,
                }
            },
            None => None,
        },
        Pattern::PatternWithQuantifier(b, q) => try_quant(input, &**b, *q, rest, captures),
        _ => match p.matches(input) {
            Some(n) => {
                let sub = &input[n..input.len()];
                match try_match(sub, rest, captures) {
                    Some((l, c)) => Some((n + l, c)),
                    None => None,
                }
            },
            None => None,
        },
    }
}

fn try_group(
    input: &[char],
    inner: &[Pattern],
    ci: usize,
    rest: &[Pattern],
    captures: Captures,
    k: usize,
) -> (r: Option<(usize, Captures)>)
    ensures
        outcome_of(r) == group_try(input@, inner@, ci as int, rest@, captures@, k as nat),
        r matches Some((n, _)) ==> n <= input@.len(),
    decreases 1 + seq_size(inner@) + seq_size(rest@), 1nat, k,
{
    let mut m = k;
    while 0 < m && m <= input.len()
        invariant
            group_try(input@, inner@, ci as int, rest@, captures@, m as nat) == group_try(
                input@,
                inner@,
                ci as int,
                rest@,
                captures@,
                k as nat,
            ),
        decreases m,
    {
        let prefix = &input[0..m];
        if let Some((len, c2)) = try_match(prefix, inner, captures.duplicate()) {
            let mut c3 = c2;
            c3.capture(&prefix[0..len], ci);
            let sub = &input[len..input.len()];
            if let Some((rl, c4)) = try_match(sub, rest, c3) {
                return Some((len + rl, c4));
            }
        }
        m = m - 1;
    }
    None
}

fn try_alt(
    input: &[char],
    bs: &[Vec<Pattern>],
    ci: usize,
    rest: &[Pattern],
    captures: Captures,
) -> (r: Option<(usize, Captures)>)
    ensures
        outcome_of(r) == alt_try(input@, bs@, ci as int, rest@, captures@),
        r matches Some((n, _)) ==> n <= input@.len(),
    decreases 1 + branches_size(bs@) + seq_size(rest@), 1nat, bs@.len(),
{
    if bs.len() == 0 {
        return None;
    }
    let others = &bs[1..bs.len()];
    assert(others@ == bs@.drop_first());
    match try_match(input, bs[0].as_slice(), captures.duplicate()) {
        Some((ml, c2)) => {
            let mut c3 = c2;
            c3.capture(&input[0..ml], ci);
            let sub = &input[ml..input.len()];
            match try_match(sub, rest, c3) {
                Some((rl, c4)) => Some((ml + rl, c4)),
                None => try_alt(input, others, ci, rest, captures),
            }
        },
        None => try_alt(input, others, ci, rest, captures),
    }
}

fn try_quant(
    input: &[char],
    inner: &Pattern,
    q: Quantifier,
    rest: &[Pattern],
    captures: Captures,
) -> (r: Option<(usize, Captures)>)
    ensures
        outcome_of(r) == quant(input@, *inner, q, rest@, captures@),
        r matches Some((n, _)) ==> n <= input@.len(),
    decreases 1 + node_size(*inner) + seq_size(rest@), 1nat, 0nat,
{
    let mut lens: Vec<usize> = Vec::new();
    let mut pos: usize = 0;
    let mut tcaps = captures.duplicate();
    let ghost target = greedy(input@, *inner, q, captures@, Seq::empty(), captures@);
    assert(lens_view(lens@) =~= Seq::<nat>::empty());
    assert(input@.skip(0) =~= input@);
    loop
        invariant_except_break
            greedy(input@.skip(pos as int), *inner, q, captures@, lens_view(lens@), tcaps@)
                == target,
        invariant
            pos <= input@.len(),
            pos == sum(lens_view(lens@)),
        ensures
            pos <= input@.len(),
            pos == sum(lens_view(lens@)),
            (lens_view(lens@), tcaps@) == target,
        decreases input@.len() - pos,
    {
        let at_cap = match q {
            Quantifier::ZeroOrOne => lens.len() >= 1,
            Quantifier::Literal(n) => lens.len() >= n,
            _ => false,
        };
        if at_cap {
            break;
        }
        let rem = &input[pos..input.len()];
        match try_single(rem, inner, captures.duplicate()) {
            Some((len, sub)) => {
                if len == 0 {
                    break;
                }
                let ghost old_lens = lens_view(lens@);
                lens.push(len);
                assert(lens_view(lens@) =~= old_lens.push(len as nat));
                assert(lens_view(lens@).drop_last() =~= old_lens);
                assert(rem@.skip(len as int) =~= input@.skip(pos + len));
                pos = pos + len;
                tcaps = sub;
            },
            None => {
                break;
            },
        }
    }
    match q {
        Quantifier::ZeroOrOne => {
            let sub = &input[pos..input.len()];
            match try_match(sub, rest, tcaps) {
                Some((rl, c)) => Some((pos + rl, c)),
                None => None,
            }
        },
        Quantifier::Literal(n) => {
            if lens.len() != n {
                return None;
            }
            let sub = &input[pos..input.len()];
            match try_match(sub, rest, tcaps) {
                Some((rl, c)) => Some((pos + rl, c)),
                None => None,
            }
        },
        _ => {
            let min: usize = match q {
                Quantifier::OneOrMore => 1,
                _ => 0,
            };
            let ghost target2 = backtrack(input@, lens_view(lens@), min as nat, rest@, tcaps@);
            loop
                invariant
                    pos <= input@.len(),
                    pos == sum(lens_view(lens@)),
                    backtrack(input@, lens_view(lens@), min as nat, rest@, tcaps@) == target2,
                    target2 == quant(input@, *inner, q, rest@, captures@),
                decreases lens@.len(),
            {
                if lens.len() < min {
                    return None;
                }
                let sub = &input[pos..input.len()];
                match try_match(sub, rest, tcaps.duplicate()) {
                    Some((rl, c)) => {
                        return Some((pos + rl, c));
                    },
                    None => {
                        let ghost old_lens = lens_view(lens@);
                        match lens.pop() {
                            Some(last) => {
                                assert(lens_view(lens@) =~= old_lens.drop_last());
                                pos = pos - last;
                            },
                            None => {
                                return None;
                            },
                        }
                    },
                }
            }
        },
    }
}

// ---------------------------------------------------------------------------
// Compiled patterns

/// A compiled pattern: its node sequence and how many capture indices it uses.
#[derive(Debug)]
pub struct Regex {
    pub patterns: Vec<Pattern>,
    pub capture_group_count: usize,
}

/// A store of `n` unset slots.
pub open spec fn blank(n: nat) -> CapSeq {
    Seq::new(n, |i: int| None)
}

/// The sequence starts with `^`: it is tried once, at the start of the input.
pub open spec fn anchored(pats: Seq<Pattern>) -> bool {
    pats.len() > 0 && pats[0] is StartOfString
}

/// The unanchored attempt that starts at offset `i`.
pub open spec fn attempt(pats: Seq<Pattern>, inp: Seq<char>, n: nat, i: int) -> Outcome {
    match_seq(inp.skip(i), pats, blank(n))
}

/// Whether the pattern occurs in `inp`: at its start when anchored, else at
/// some offset of the input.
pub open spec fn is_match(pats: Seq<Pattern>, inp: Seq<char>, n: nat) -> bool {
    if anchored(pats) {
        match_seq(inp, pats.drop_first(), blank(n)) is Some
    } else {
        exists|i: int| 0 <= i < inp.len() && (#[trigger] attempt(pats, inp, n, i)) is Some
    }
}

/// The captures of the first offset, from `i` on, at which an attempt succeeds.
pub open spec fn first_capture_from(pats: Seq<Pattern>, inp: Seq<char>, n: nat, i: int) -> Option<
    CapSeq,
>
    decreases inp.len() - i,
{
    if i < 0 || i >= inp.len() {
        None
    } else {
        match attempt(pats, inp, n, i) {
            Some((_, c)) => Some(c),
            None => first_capture_from(pats, inp, n, i + 1),
        }
    }
}

/// The captures of the first successful attempt, if any.
pub open spec fn captures_of(pats: Seq<Pattern>, inp: Seq<char>, n: nat) -> Option<CapSeq> {
    if anchored(pats) {
        match match_seq(inp, pats.drop_first(), blank(n)) {
            Some((_, c)) => Some(c),
            None => None,
        }
    } else {
        first_capture_from(pats, inp, n, 0)
    }
}

pub open spec fn store_of(r: Option<Captures>) -> Option<CapSeq> {
    match r {
        Some(c) => Some(c@),
        None => None,
    }
}

impl Regex {
    /// Compiles `s` and numbers its groups from 1.
    pub fn parse(s: &str) -> (r: Result<Regex, CompileError>)
        ensures
            (r matches Err(e) && e == CompileError::InvalidQuantifier) <==> !parse_ok(s@),
            r matches Ok(re) ==> exists|tree: Seq<Pattern>|
                parses(s@, tree) && numbered_seq(tree, re.patterns@, 1)
                    && re.capture_group_count == seq_groups(tree),
            r matches Err(e) && e == CompileError::TooManyGroups ==> exists|tree: Seq<Pattern>|
                parses(s@, tree) && seq_groups(tree) >= usize::MAX,
    {
        match Pattern::parse(s) {
            Err(e) => Err(e),
            Ok(tree) => {
                let ghost t = tree@;
                match number_groups(tree) {
                    Some((v, n)) => {
                        assert(parses(s@, t) && numbered_seq(t, v@, 1) && n == seq_groups(t));
                        Ok(Regex { patterns: v, capture_group_count: n })
                    },
                    None => {
                        assert(parses(s@, t) && seq_groups(t) >= usize::MAX);
                        Err(CompileError::TooManyGroups)
                    },
                }
            },
        }
    }

    /// Whether the pattern occurs in `input`.
    pub fn matches(&self, input: &str) -> (r: bool)
        ensures
            r == is_match(self.patterns@, input@, self.capture_group_count as nat),
    {
        let chars = chars_of(input);
        let captures = Captures::new(self.capture_group_count);
        assert(captures@ =~= blank(self.capture_group_count as nat));
        let pats = self.patterns.as_slice();
        if pats.len() > 0 && matches!(pats[0], Pattern::StartOfString) {
            let rest = &pats[1..pats.len()];
            assert(rest@ == pats@.drop_first());
            return try_match(chars.as_slice(), rest, captures).is_some();
        }
        let mut cur: usize = 0;
        while cur < chars.len()
            invariant
                chars@ == input@,
                pats@ == self.patterns@,
                !anchored(pats@),
                captures@ == blank(self.capture_group_count as nat),
                cur <= chars@.len(),
                forall|j: int|
                    0 <= j < cur ==> (#[trigger] attempt(
                        pats@,
                        input@,
                        self.capture_group_count as nat,
                        j,
                    )) is None,
            decreases chars@.len() - cur,
        {
            let sub = &chars.as_slice()[cur..chars.len()];
            if try_match(sub, pats, captures.duplicate()).is_some() {
                assert(attempt(pats@, input@, self.capture_group_count as nat, cur as int) is Some);
                return true;
            }
            cur = cur + 1;
        }
        false
    }

    /// The captures of the first successful attempt, or `None` when the
    /// pattern does not occur in `input`.
    pub fn captures(&self, input: &str) -> (r: Option<Captures>)
        ensures
            store_of(r) == captures_of(self.patterns@, input@, self.capture_group_count as nat),
    {
        let chars = chars_of(input);
        let captures = Captures::new(self.capture_group_count);
        assert(captures@ =~= blank(self.capture_group_count as nat));
        let pats = self.patterns.as_slice();
        if pats.len() > 0 && matches!(pats[0], Pattern::StartOfString) {
            let rest = &pats[1..pats.len()];
            assert(rest@ == pats@.drop_first());
            return match try_match(chars.as_slice(), rest, captures) {
                Some((_, c)) => Some(c),
                None => None,
            };
        }
        let ghost n = self.capture_group_count as nat;
        let mut cur: usize = 0;
        while cur < chars.len()
            invariant
                chars@ == input@,
                pats@ == self.patterns@,
                n == self.capture_group_count as nat,
                !anchored(pats@),
                captures@ == blank(n),
                cur <= chars@.len(),
                first_capture_from(pats@, input@, n, cur as int) == first_capture_from(
                    pats@,
                    input@,
                    n,
                    0,
                ),
            decreases chars@.len() - cur,
        {
            let sub = &chars.as_slice()[cur..chars.len()];
            match try_match(sub, pats, captures.duplicate()) {
                Some((_, c)) => {
                    return Some(c);
                },
                None => {},
            }
            cur = cur + 1;
        }
        None
    }
}

// ---------------------------------------------------------------------------
// Laws

/// Matching depends on the compiled pattern and the input alone: two runs of
/// `matches` agree, and so do two runs of `captures`.
pub proof fn lemma_matching_is_deterministic(
    re: &Regex,
    input: Seq<char>,
    r1: bool,
    r2: bool,
    c1: Option<CapSeq>,
    c2: Option<CapSeq>,
)
    requires
        r1 == is_match(re.patterns@, input, re.capture_group_count as nat),
        r2 == is_match(re.patterns@, input, re.capture_group_count as nat),
        c1 == captures_of(re.patterns@, input, re.capture_group_count as nat),
        c2 == captures_of(re.patterns@, input, re.capture_group_count as nat),
    ensures
        r1 == r2,
        c1 == c2,
{
}

proof fn lemma_first_capture(pats: Seq<Pattern>, inp: Seq<char>, n: nat, i: int)
    requires
        0 <= i,
    ensures
        first_capture_from(pats, inp, n, i) is Some <==> exists|j: int|
            i <= j < inp.len() && (#[trigger] attempt(pats, inp, n, j)) is Some,
    decreases inp.len() - i,
{
    if i < inp.len() {
        lemma_first_capture(pats, inp, n, i + 1);
        if attempt(pats, inp, n, i) is None {
            assert forall|j: int| i <= j < inp.len() && (#[trigger] attempt(pats, inp, n, j)) is Some
                implies i + 1 <= j by {}
        }
    }
}

/// Captures are given exactly when the pattern occurs.
pub proof fn lemma_captures_iff_match(pats: Seq<Pattern>, inp: Seq<char>, n: nat)
    ensures
        captures_of(pats, inp, n) is Some <==> is_match(pats, inp, n),
{
    if !anchored(pats) {
        lemma_first_capture(pats, inp, n, 0);
    }
}

} // verus!
