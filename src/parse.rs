use vstd::prelude::*;

use crate::captures::copy_chars;
use crate::pattern::{branches_size, is_digit, node_size, seq_size, Pattern};
use crate::quantifier::Quantifier;

verus! {

/// Why a pattern does not compile. Unterminated brackets, groups and braces
/// are no error: they run to the end of the pattern.
#[derive(Debug, Clone, Copy, PartialEq, Eq, Structural)]
pub enum CompileError {
    /// A `{...}` whose payload is not a number that fits in `usize`.
    InvalidQuantifier,
    /// More capture groups than an index can count.
    TooManyGroups,
}

// ---------------------------------------------------------------------------
// Delimiters

pub open spec fn closer_of(open: char) -> Option<char> {
    if open == '[' {
        Some(']')
    } else if open == '(' {
        Some(')')
    } else if open == '{' {
        Some('}')
    } else {
        None
    }
}

/// Openers minus closers among the first `i` characters.
pub open spec fn depth(s: Seq<char>, open: char, close: char, i: int) -> int
    decreases i,
{
    if i <= 0 {
        0
    } else {
        depth(s, open, close, i - 1) + if s[i - 1] == open {
            1int
        } else if s[i - 1] == close {
            -1int
        } else {
            0int
        }
    }
}

/// Position `i` holds the closer that balances the first opener.
pub open spec fn closes_at(s: Seq<char>, open: char, close: char, i: int) -> bool {
    0 <= i < s.len() && s[i] == close && s[i] != open && depth(s, open, close, i) == 1
}

/// The first balancing closer at or after `i`.
pub open spec fn first_close_from(s: Seq<char>, open: char, close: char, i: int) -> Option<nat>
    decreases s.len() - i,
{
    if i < 0 || i >= s.len() {
        None
    } else if closes_at(s, open, close, i) {
        Some(i as nat)
    } else {
        first_close_from(s, open, close, i + 1)
    }
}

pub open spec fn find_close(s: Seq<char>, open: char) -> Option<nat> {
    match closer_of(open) {
        Some(close) => first_close_from(s, open, close, 0),
        None => None,
    }
}

/// Where the token that `s` starts with ends: its closer, or the end of the
/// string when it has none (an unterminated delimiter runs to the end).
pub open spec fn bracket_end(s: Seq<char>) -> int {
    let e = match find_close(s, s[0]) {
        Some(i) => i as int,
        None => s.len() as int,
    };
    if 1 <= e <= s.len() {
        e
    } else {
        s.len() as int
    }
}

/// What stands between the delimiters of the token that `s` starts with.
pub open spec fn body(s: Seq<char>) -> Seq<char> {
    s.subrange(1, bracket_end(s))
}

pub open spec fn is_bracket(c: char) -> bool {
    c == '[' || c == '(' || c == '{'
}

/// Length of the first token of a non-empty `s`.
pub open spec fn token_len(s: Seq<char>) -> nat {
    if s.len() == 0 {
        0
    } else if is_bracket(s[0]) {
        if bracket_end(s) < s.len() {
            (bracket_end(s) + 1) as nat
        } else {
            s.len()
        }
    } else if s[0] == '\\' && s.len() >= 2 {
        2
    } else {
        1
    }
}

// ---------------------------------------------------------------------------
// Alternatives

/// Bracket and parenthesis nesting before position `i`.
pub open spec fn nest(s: Seq<char>, i: int) -> int
    decreases i,
{
    if i <= 0 {
        0
    } else {
        nest(s, i - 1) + if s[i - 1] == '(' || s[i - 1] == '[' {
            1int
        } else if s[i - 1] == ')' || s[i - 1] == ']' {
            -1int
        } else {
            0int
        }
    }
}

/// A `|` outside any nested bracket or parenthesis.
pub open spec fn is_separator(s: Seq<char>, i: int) -> bool {
    s[i] == '|' && nest(s, i) == 0
}

pub open spec fn split_from(s: Seq<char>, start: int, i: int) -> Seq<Seq<char>>
    decreases s.len() - i,
{
    if i >= s.len() {
        seq![s.subrange(start, s.len() as int)]
    } else if is_separator(s, i) {
        seq![s.subrange(start, i)] + split_from(s, i + 1, i + 1)
    } else {
        split_from(s, start, i + 1)
    }
}

/// The pieces of `s` between its top-level separators.
pub open spec fn variants(s: Seq<char>) -> Seq<Seq<char>> {
    split_from(s, 0, 0)
}

pub open spec fn bounded(x: Seq<char>, n: nat) -> Seq<char> {
    if x.len() <= n {
        x
    } else {
        Seq::empty()
    }
}

// ---------------------------------------------------------------------------
// Numbers

pub open spec fn digit_value(c: char) -> nat {
    (c as int - '0' as int) as nat
}

pub open spec fn digits_value(s: Seq<char>) -> nat
    decreases s.len(),
{
    if s.len() == 0 {
        0
    } else {
        digits_value(s.drop_last()) * 10 + digit_value(s.last())
    }
}

pub open spec fn unsigned_part(p: Seq<char>) -> Seq<char> {
    if p.len() > 0 && p[0] == '+' {
        p.skip(1)
    } else {
        p
    }
}

/// A decimal that fits in `usize`, with an optional leading `+`.
pub open spec fn number_ok(p: Seq<char>) -> bool {
    let d = unsigned_part(p);
    d.len() > 0 && (forall|i: int| 0 <= i < d.len() ==> is_digit(#[trigger] d[i])) && digits_value(
        d,
    ) <= usize::MAX
}

pub open spec fn number_value(p: Seq<char>) -> nat {
    digits_value(unsigned_part(p))
}

// ---------------------------------------------------------------------------
// Tokens to nodes

pub open spec fn is_quantifier_node(p: Pattern) -> bool {
    p is OneOrZero || p is OneOrMore || p is ZeroOrMore || p is LiteralQuantifier
}

pub open spec fn quantifier_of(p: Pattern) -> Quantifier {
    match p {
        Pattern::OneOrMore => Quantifier::OneOrMore,
        Pattern::ZeroOrMore => Quantifier::ZeroOrMore,
        Pattern::LiteralQuantifier(n) => Quantifier::Literal(n),
        _ => Quantifier::ZeroOrOne,
    }
}

/// `out` is `acc` after a trailing quantifier has wrapped the node before it.
/// A quantifier with nothing before it stays as it is.
pub open spec fn folded(acc: Seq<Pattern>, out: Seq<Pattern>) -> bool {
    let n = acc.len();
    if n >= 2 && is_quantifier_node(acc[n - 1]) {
        &&& out.len() == n - 1
        &&& out.subrange(0, n - 2) == acc.subrange(0, n - 2)
        &&& out[n - 2] matches Pattern::PatternWithQuantifier(b, q)
        &&& *b == acc[n - 2]
        &&& q == quantifier_of(acc[n - 1])
    } else {
        out == acc
    }
}

/// The node for a one- or two-character token.
pub open spec fn simple_node(s: Seq<char>) -> Pattern {
    let c = s[0];
    if c == '\\' {
        if s.len() < 2 {
            Pattern::Literal('\\')
        } else if s[1] == 'd' {
            Pattern::Digit
        } else if s[1] == 'w' {
            Pattern::Alphanumeric
        } else if is_digit(s[1]) {
            Pattern::BackReference(digit_value(s[1]) as usize)
        } else {
            Pattern::Literal(s[1])
        }
    } else if c == '.' {
        Pattern::Any
    } else if c == '$' {
        Pattern::EndOfString
    } else if c == '^' {
        Pattern::StartOfString
    } else if c == '+' {
        Pattern::OneOrMore
    } else if c == '?' {
        Pattern::OneOrZero
    } else if c == '*' {
        Pattern::ZeroOrMore
    } else {
        Pattern::Literal(c)
    }
}

/// The first token of a non-empty `s` compiles without error.
pub open spec fn token_ok(s: Seq<char>) -> bool
    decreases s.len(), 1nat,
{
    if s.len() == 0 {
        true
    } else if s[0] == '[' {
        let b = body(s);
        if b.len() > 0 && b[0] == '^' {
            parse_ok(b.skip(1))
        } else {
            parse_ok(b)
        }
    } else if s[0] == '(' {
        let b = body(s);
        let vs = variants(b);
        if vs.len() == 1 {
            parse_ok(b)
        } else {
            forall|j: int| 0 <= j < vs.len() ==> parse_ok(bounded(#[trigger] vs[j], b.len()))
        }
    } else if s[0] == '{' {
        number_ok(body(s))
    } else {
        true
    }
}

/// `s` compiles without error.
pub open spec fn parse_ok(s: Seq<char>) -> bool
    decreases s.len(), 2nat,
{
    if s.len() == 0 {
        true
    } else {
        token_ok(s) && parse_ok(s.skip(token_len(s) as int))
    }
}

/// `node` is what the first token of a non-empty `s` compiles to.
pub open spec fn token_node(s: Seq<char>, node: Pattern) -> bool
    decreases s.len(), 0nat,
{
    if s.len() == 0 {
        false
    } else if s[0] == '[' {
        let b = body(s);
        if b.len() > 0 && b[0] == '^' {
            node matches Pattern::NegativeGroup(v) && parses(b.skip(1), v@)
        } else {
            node matches Pattern::PositiveGroup(v) && parses(b, v@)
        }
    } else if s[0] == '(' {
        let b = body(s);
        let vs = variants(b);
        if vs.len() == 1 {
            node matches Pattern::CaptureGroup(i, v) && i == 0 && parses(b, v@)
        } else {
            &&& node matches Pattern::Alternate(i, bs)
            &&& i == 0
            &&& bs@.len() == vs.len()
            &&& forall|j: int|
                0 <= j < vs.len() ==> parses(bounded(#[trigger] vs[j], b.len()), bs@[j]@)
        }
    } else if s[0] == '{' {
        node == Pattern::LiteralQuantifier(number_value(body(s)) as usize)
    } else {
        node == simple_node(s)
    }
}

/// Compiling the rest `s` after the nodes `acc` gives `out`.
pub open spec fn parse_acc(s: Seq<char>, acc: Seq<Pattern>, out: Seq<Pattern>) -> bool
    decreases s.len(), 1nat,
{
    if s.len() == 0 {
        out == acc
    } else {
        exists|node: Pattern, acc2: Seq<Pattern>|
            token_node(s, node) && #[trigger] folded(acc.push(node), acc2) && parse_acc(
                s.skip(token_len(s) as int),
                acc2,
                out,
            )
    }
}

/// `out` is the node sequence that `s` compiles to.
pub open spec fn parses(s: Seq<char>, out: Seq<Pattern>) -> bool
    decreases s.len(), 2nat,
{
    parse_acc(s, Seq::empty(), out)
}

// ---------------------------------------------------------------------------
// Executable compiler

pub open spec fn pieces_view(r: Seq<Vec<char>>) -> Seq<Seq<char>> {
    r.map_values(|v: Vec<char>| v@)
}

/// The characters of `s`, in order.
pub fn chars_of(s: &str) -> (r: Vec<char>)
    ensures
        r@ == s@,
{
    let n = s.unicode_len();
    let mut out: Vec<char> = Vec::new();
    let mut i: usize = 0;
    while i < n
        invariant
            n == s@.len(),
            i <= n,
            out@ == s@.subrange(0, i as int),
        decreases n - i,
    {
        out.push(s.get_char(i));
        i = i + 1;
    }
    assert(out@ =~= s@);
    out
}

/// Position of the closer that balances the opener `opening_char`, counting
/// nested openers; `None` when there is none or `opening_char` is no opener.
fn find_closing_char(s: &[char], opening_char: char) -> (r: Option<usize>)
    ensures
        r matches Some(i) ==> find_close(s@, opening_char) == Some(i as nat) && 0 < i < s@.len(),
        r is None ==> find_close(s@, opening_char) is None,
{
    let close = if opening_char == '[' {
        ']'
    } else if opening_char == '(' {
        ')'
    } else if opening_char == '{' {
        '}'
    } else {
        return None;
    };
    let mut opens: usize = 0;
    let mut closes: usize = 0;
    let mut i: usize = 0;
    while i < s.len()
        invariant
            closer_of(opening_char) == Some(close),
            close != opening_char,
            i <= s@.len(),
            opens + closes <= i,
            depth(s@, opening_char, close, i as int) == opens - closes,
            first_close_from(s@, opening_char, close, i as int) == find_close(s@, opening_char),
        decreases s@.len() - i,
    {
        let c = s[i];
        if c == opening_char {
            opens = opens + 1;
        } else if c == close {
            if opens == closes + 1 {
                return Some(i);
            }
            closes = closes + 1;
        }
        i = i + 1;
    }
    None
}

/// Splits the inside of a group at each `|` that is not nested in brackets
/// or parentheses.
fn split_either_variants(s: &[char]) -> (r: Vec<Vec<char>>)
    ensures
        pieces_view(r@) == variants(s@),
        forall|j: int| 0 <= j < r@.len() ==> (#[trigger] r@[j])@.len() <= s@.len(),
{
    let mut out: Vec<Vec<char>> = Vec::new();
    let mut start: usize = 0;
    let mut opens: usize = 0;
    let mut closes: usize = 0;
    let mut i: usize = 0;
    while i < s.len()
        invariant
            start <= i <= s@.len(),
            opens + closes <= i,
            nest(s@, i as int) == opens - closes,
            pieces_view(out@) + split_from(s@, start as int, i as int) == variants(s@),
            forall|j: int| 0 <= j < out@.len() ==> (#[trigger] out@[j])@.len() <= s@.len(),
        decreases s@.len() - i,
    {
        let c = s[i];
        if c == '(' || c == '[' {
            opens = opens + 1;
        } else if c == ')' || c == ']' {
            closes = closes + 1;
        } else if c == '|' && opens == closes {
            let piece = copy_chars(&s[start..i]);
            let ghost before = pieces_view(out@);
            out.push(piece);
            assert(pieces_view(out@) =~= before.push(s@.subrange(start as int, i as int)));
            assert(pieces_view(out@) + split_from(s@, i + 1, i + 1) =~= before + split_from(
                s@,
                start as int,
                i as int,
            ));
            start = i + 1;
        }
        i = i + 1;
    }
    let piece = copy_chars(&s[start..s.len()]);
    let ghost before = pieces_view(out@);
    out.push(piece);
    assert(pieces_view(out@) =~= before + split_from(s@, start as int, s@.len() as int));
    out
}

proof fn lemma_prefix_value_le(d: Seq<char>, j: int)
    requires
        0 <= j <= d.len(),
    ensures
        digits_value(d.take(j)) <= digits_value(d),
    decreases d.len() - j,
{
    if j == d.len() {
        assert(d.take(j) =~= d);
    } else {
        lemma_prefix_value_le(d, j + 1);
        assert(d.take(j + 1).drop_last() =~= d.take(j));
    }
}

/// The value of a `{n}` payload.
fn parse_number(p: &[char]) -> (r: Option<usize>)
    ensures
        (r is Some) <==> number_ok(p@),
        r matches Some(n) ==> n == number_value(p@),
{
    let mut i: usize = 0;
    if p.len() > 0 && p[0] == '+' {
        i = 1;
    }
    let ghost d = unsigned_part(p@);
    assert(d =~= p@.skip(i as int));
    if i >= p.len() {
        assert(d.len() == 0);
        return None;
    }
    let mut value: usize = 0;
    let mut k: usize = i;
    assert(d.take(0) =~= Seq::<char>::empty());
    while k < p.len()
        invariant
            i <= k <= p@.len(),
            d == p@.skip(i as int),
            d == unsigned_part(p@),
            value == digits_value(d.take(k - i)),
            forall|m: int| 0 <= m < k - i ==> is_digit(#[trigger] d[m]),
        decreases p@.len() - k,
    {
        let c = p[k];
        if !('0' <= c && c <= '9') {
            assert(d[k - i] == c);
            assert(!is_digit(d[k - i]));
            return None;
        }
        let dv: usize = (c as u32 - '0' as u32) as usize;
        assert(d.take(k - i + 1).drop_last() =~= d.take(k - i));
        match value.checked_mul(10) {
            None => {
                proof {
                    lemma_prefix_value_le(d, k - i + 1);
                }
                return None;
            },
            Some(v10) => match v10.checked_add(dv) {
                None => {
                    proof {
                        lemma_prefix_value_le(d, k - i + 1);
                    }
                    return None;
                },
                Some(v) => {
                    value = v;
                },
            },
        }
        k = k + 1;
    }
    assert(d.take(k - i) =~= d);
    Some(value)
}

fn char_is_regex_special(c: &char) -> (r: bool)
    ensures
        r == (*c == '.' || *c == '*' || *c == '+' || *c == '?' || *c == '|' || *c == '^' || *c
            == '$'),
{
    *c == '.' || *c == '*' || *c == '+' || *c == '?' || *c == '|' || *c == '^' || *c == '$'
}

/// The node for a one-character token that is no escape.
fn char_node(c: char) -> (r: Pattern)
    ensures
        r == simple_node(seq![c]),
{
    if char_is_regex_special(&c) {
        if c == '.' {
            Pattern::Any
        } else if c == '$' {
            Pattern::EndOfString
        } else if c == '^' {
            Pattern::StartOfString
        } else if c == '+' {
            Pattern::OneOrMore
        } else if c == '?' {
            Pattern::OneOrZero
        } else if c == '*' {
            Pattern::ZeroOrMore
        } else {
            Pattern::Literal(c)
        }
    } else {
        Pattern::Literal(c)
    }
}

fn to_quantifier(p: &Pattern) -> (r: Quantifier)
    ensures
        r == quantifier_of(*p),
{
    match p {
        Pattern::OneOrMore => Quantifier::OneOrMore,
        Pattern::ZeroOrMore => Quantifier::ZeroOrMore,
        Pattern::LiteralQuantifier(n) => Quantifier::Literal(*n),
        _ => Quantifier::ZeroOrOne,
    }
}

/// When the last node is a quantifier, it wraps the node before it.
fn handle_quantifier(patterns: &mut Vec<Pattern>)
    ensures
        folded(old(patterns)@, final(patterns)@),
{
    let n = patterns.len();
    if n < 2 {
        return;
    }
    if !patterns[n - 1].is_quantifier() {
        return;
    }
    let ghost acc = patterns@;
    let last = patterns.pop();
    let previous = patterns.pop();
    match (last, previous) {
        (Some(q), Some(p)) => {
            let quantifier = to_quantifier(&q);
            patterns.push(Pattern::PatternWithQuantifier(Box::new(p), quantifier));
            assert(patterns@.subrange(0, n - 2) =~= acc.subrange(0, n - 2));
        },
        _ => {},
    }
}

impl Pattern {
    /// Compiles a pattern string into its node sequence. Capture indices are
    /// left at 0; see `assign_capture_indices`.
    pub fn parse(s: &str) -> (r: Result<Vec<Pattern>, CompileError>)
        ensures
            r is Ok == parse_ok(s@),
            r matches Ok(v) ==> parses(s@, v@),
            r matches Err(e) ==> e == CompileError::InvalidQuantifier,
    {
        let chars = chars_of(s);
        parse_chars(chars.as_slice())
    }

    /// `?`, `+`, `*` and `{n}` as they come out of the tokenizer.
    fn is_quantifier(&self) -> (r: bool)
        ensures
            r == is_quantifier_node(*self),
    {
        match self {
            Pattern::OneOrZero | Pattern::OneOrMore | Pattern::LiteralQuantifier(_)
            | Pattern::ZeroOrMore => true,
            _ => false,
        }
    }
}

/// Compiles `s` into its node sequence.
pub fn parse_chars(s: &[char]) -> (r: Result<Vec<Pattern>, CompileError>)
    ensures
        r is Ok == parse_ok(s@),
        r matches Ok(v) ==> parses(s@, v@),
        r matches Err(e) ==> e == CompileError::InvalidQuantifier,
    decreases s@.len(), 1nat,
{
    let mut patterns: Vec<Pattern> = Vec::new();
    let mut pos: usize = 0;
    assert(s@.skip(0) =~= s@);
    while pos < s.len()
        invariant
            pos <= s@.len(),
            parse_ok(s@) == parse_ok(s@.skip(pos as int)),
            forall|out: Seq<Pattern>|
                parse_acc(s@.skip(pos as int), patterns@, out) ==> parse_acc(
                    s@,
                    Seq::empty(),
                    out,
                ),
        decreases s@.len() - pos,
    {
        let rem = &s[pos..s.len()];
        assert(rem@ == s@.skip(pos as int));
        match next_token(rem) {
            Err(e) => {
                return Err(e);
            },
            Ok((node, tl)) => {
                let ghost acc = patterns@;
                patterns.push(node);
                let ghost pushed = patterns@;
                let ghost g = pushed.last();
                assert(pushed == acc.push(g));
                handle_quantifier(&mut patterns);
                assert(rem@.skip(tl as int) =~= s@.skip(pos + tl));
                assert forall|out: Seq<Pattern>|
                    parse_acc(s@.skip(pos + tl), patterns@, out) implies parse_acc(
                    s@,
                    Seq::empty(),
                    out,
                ) by {
                    assert(token_node(rem@, g) && folded(acc.push(g), patterns@) && parse_acc(
                        rem@.skip(tl as int),
                        patterns@,
                        out,
                    ));
                    assert(parse_acc(rem@, acc, out));
                }
                pos = pos + tl;
            },
        }
    }
    assert(s@.skip(pos as int) =~= Seq::<char>::empty());
    assert(parse_acc(s@.skip(pos as int), patterns@, patterns@));
    assert(parse_acc(s@, Seq::empty(), patterns@));
    Ok(patterns)
}

/// Compiles the first token of a non-empty `s`; also gives its length.
fn next_token(s: &[char]) -> (r: Result<(Pattern, usize), CompileError>)
    requires
        s@.len() > 0,
    ensures
        r matches Ok((p, n)) ==> n == token_len(s@) && token_node(s@, p) && token_ok(s@),
        r is Err ==> !token_ok(s@),
        r matches Err(e) ==> e == CompileError::InvalidQuantifier,
    decreases s@.len(), 0nat,
{
    let c = s[0];
    if c == '[' || c == '(' || c == '{' {
        let e: usize = match find_closing_char(s, c) {
            Some(i) => i,
            None => s.len(),
        };
        assert(bracket_end(s@) == e);
        let tl: usize = if e < s.len() {
            e + 1
        } else {
            s.len()
        };
        let b = &s[1..e];
        assert(b@ == body(s@));
        if c == '[' {
            if b.len() > 0 && b[0] == '^' {
                let inner = &b[1..b.len()];
                assert(inner@ == b@.skip(1));
                match parse_chars(inner) {
                    Ok(v) => Ok((Pattern::NegativeGroup(v), tl)),
                    Err(err) => Err(err),
                }
            } else {
                match parse_chars(b) {
                    Ok(v) => Ok((Pattern::PositiveGroup(v), tl)),
                    Err(err) => Err(err),
                }
            }
        } else if c == '(' {
            let vs = split_either_variants(b);
            assert(vs@.len() == variants(b@).len());
            if vs.len() == 1 {
                match parse_chars(b) {
                    Ok(v) => Ok((Pattern::CaptureGroup(0, v), tl)),
                    Err(err) => Err(err),
                }
            } else {
                let mut bs: Vec<Vec<Pattern>> = Vec::new();
                let mut j: usize = 0;
                while j < vs.len()
                    invariant
                        s@.len() > 0,
                        s@[0] == '(',
                        variants(b@).len() != 1,
                        b@ == body(s@),
                        b@.len() < s@.len(),
                        pieces_view(vs@) == variants(b@),
                        forall|m: int| 0 <= m < vs@.len() ==> (#[trigger] vs@[m])@.len() <= b@.len(),
                        j <= vs@.len(),
                        bs@.len() == j,
                        forall|m: int|
                            0 <= m < j ==> parses(
                                bounded(#[trigger] variants(b@)[m], b@.len()),
                                bs@[m]@,
                            ) && parse_ok(bounded(variants(b@)[m], b@.len())),
                    decreases vs@.len() - j,
                {
                    let piece = vs[j].as_slice();
                    assert(variants(b@)[j as int] == piece@);
                    assert(bounded(variants(b@)[j as int], b@.len()) == piece@);
                    match parse_chars(piece) {
                        Ok(v) => {
                            bs.push(v);
                        },
                        Err(err) => {
                            assert(!parse_ok(bounded(variants(body(s@))[j as int], body(s@).len())));
                            return Err(err);
                        },
                    }
                    j = j + 1;
                }
                Ok((Pattern::Alternate(0, bs), tl))
            }
        } else {
            match parse_number(b) {
                Some(n) => Ok((Pattern::LiteralQuantifier(n), tl)),
                None => Err(CompileError::InvalidQuantifier),
            }
        }
    } else if c == '\\' && s.len() >= 2 {
        let d = s[1];
        let node = if d == 'd' {
            Pattern::Digit
        } else if d == 'w' {
            Pattern::Alphanumeric
        } else if '0' <= d && d <= '9' {
            Pattern::BackReference((d as u32 - '0' as u32) as usize)
        } else {
            Pattern::Literal(d)
        };
        Ok((node, 2))
    } else {
        let node = char_node(c);
        assert(simple_node(s@) == simple_node(seq![c]));
        Ok((node, 1))
    }
}

// ---------------------------------------------------------------------------
// Capture indices

/// Number of capture indices a tree consumes: one per group and per alternation.
pub open spec fn groups(p: Pattern) -> nat
    decreases node_size(p), 0nat, 0nat,
{
    match p {
        Pattern::CaptureGroup(_, v) => 1 + seq_groups(v@),
        Pattern::Alternate(_, bs) => 1 + branch_groups(bs@),
        Pattern::PatternWithQuantifier(b, _) => groups(*b),
        _ => 0,
    }
}

pub open spec fn seq_groups(s: Seq<Pattern>) -> nat
    decreases seq_size(s), 1nat, s.len(),
{
    if s.len() == 0 {
        0
    } else {
        groups(s[0]) + seq_groups(s.drop_first())
    }
}

pub open spec fn branch_groups(bs: Seq<Vec<Pattern>>) -> nat
    decreases branches_size(bs), 2nat, bs.len(),
{
    if bs.len() == 0 {
        0
    } else {
        seq_groups(bs[0]@) + branch_groups(bs.drop_first())
    }
}

/// `new` is `old` with its groups and alternations numbered depth-first,
/// in the order they are met, from `start` on.
pub open spec fn numbered(old: Pattern, new: Pattern, start: int) -> bool
    decreases node_size(old), 0nat, 0nat,
{
    match old {
        Pattern::CaptureGroup(_, v) => new matches Pattern::CaptureGroup(i, w) && i == start
            && numbered_seq(v@, w@, start + 1),
        Pattern::Alternate(_, bs) => new matches Pattern::Alternate(i, cs) && i == start
            && numbered_branches(bs@, cs@, start + 1),
        Pattern::PatternWithQuantifier(b, q) => new matches Pattern::PatternWithQuantifier(c, q2)
            && q2 == q && numbered(*b, *c, start),
        _ => new == old,
    }
}

pub open spec fn numbered_seq(olds: Seq<Pattern>, news: Seq<Pattern>, start: int) -> bool
    decreases seq_size(olds), 1nat, olds.len(),
{
    olds.len() == news.len() && (olds.len() == 0 || (numbered(olds[0], news[0], start)
        && numbered_seq(olds.drop_first(), news.drop_first(), start + groups(olds[0]))))
}

pub open spec fn numbered_branches(
    bs: Seq<Vec<Pattern>>,
    cs: Seq<Vec<Pattern>>,
    start: int,
) -> bool
    decreases branches_size(bs), 2nat, bs.len(),
{
    bs.len() == cs.len() && (bs.len() == 0 || (numbered_seq(bs[0]@, cs[0]@, start)
        && numbered_branches(bs.drop_first(), cs.drop_first(), start + seq_groups(bs[0]@))))
}

fn renumber(p: Pattern, next: &mut usize) -> (r: Pattern)
    requires
        *old(next) + groups(p) <= usize::MAX,
    ensures
        numbered(p, r, *old(next) as int),
        *final(next) == *old(next) + groups(p),
    decreases node_size(p), 0nat, 0nat,
{
    match p {
        Pattern::CaptureGroup(_, inner) => {
            let i = *next;
            *next = *next + 1;
            let w = renumber_seq(inner, next);
            Pattern::CaptureGroup(i, w)
        },
        Pattern::Alternate(_, bs) => {
            let i = *next;
            *next = *next + 1;
            let cs = renumber_branches(bs, next);
            Pattern::Alternate(i, cs)
        },
        Pattern::PatternWithQuantifier(b, q) => {
            let c = renumber(*b, next);
            Pattern::PatternWithQuantifier(Box::new(c), q)
        },
        other => other,
    }
}

fn renumber_seq(v: Vec<Pattern>, next: &mut usize) -> (r: Vec<Pattern>)
    requires
        *old(next) + seq_groups(v@) <= usize::MAX,
    ensures
        numbered_seq(v@, r@, *old(next) as int),
        *final(next) == *old(next) + seq_groups(v@),
    decreases seq_size(v@), 1nat, v@.len(),
{
    if v.len() == 0 {
        return v;
    }
    let ghost orig = v@;
    let mut v = v;
    let first = v.remove(0);
    assert(v@ =~= orig.drop_first());
    let a = renumber(first, next);
    let mut rest = renumber_seq(v, next);
    let ghost tail = rest@;
    let ghost head = a;
    rest.insert(0, a);
    assert(rest@.drop_first() =~= tail);
    assert(rest@[0] == head);
    rest
}

fn renumber_branches(bs: Vec<Vec<Pattern>>, next: &mut usize) -> (r: Vec<Vec<Pattern>>)
    requires
        *old(next) + branch_groups(bs@) <= usize::MAX,
    ensures
        numbered_branches(bs@, r@, *old(next) as int),
        *final(next) == *old(next) + branch_groups(bs@),
    decreases branches_size(bs@), 2nat, bs@.len(),
{
    if bs.len() == 0 {
        return bs;
    }
    let ghost orig = bs@;
    let mut bs = bs;
    let first = bs.remove(0);
    assert(bs@ =~= orig.drop_first());
    let a = renumber_seq(first, next);
    let mut rest = renumber_branches(bs, next);
    let ghost tail = rest@;
    let ghost head = a;
    rest.insert(0, a);
    assert(rest@.drop_first() =~= tail);
    assert(rest@[0] == head);
    rest
}

/// Numbers the groups and alternations of `pattern` depth-first from
/// `next_index`, and advances `next_index` past them.
pub fn assign_capture_indices(pattern: &mut Pattern, next_index: &mut usize)
    requires
        *old(next_index) + groups(*old(pattern)) <= usize::MAX,
    ensures
        numbered(*old(pattern), *final(pattern), *old(next_index) as int),
        *final(next_index) == *old(next_index) + groups(*old(pattern)),
{
    let mut p = Pattern::Any;
    std::mem::swap(pattern, &mut p);
    let r = renumber(p, next_index);
    *pattern = r;
}

/// `groups(*p)`, or `None` when it does not fit in `usize`.
fn count_groups(p: &Pattern) -> (r: Option<usize>)
    ensures
        r matches Some(n) ==> n == groups(*p),
        r is None ==> groups(*p) > usize::MAX,
    decreases node_size(*p), 0nat, 0nat,
{
    match p {
        Pattern::CaptureGroup(_, v) => match count_seq_groups(v.as_slice()) {
            Some(n) => n.checked_add(1),
            None => None,
        },
        Pattern::Alternate(_, bs) => match count_branch_groups(bs.as_slice()) {
            Some(n) => n.checked_add(1),
            None => None,
        },
        Pattern::PatternWithQuantifier(b, _) => count_groups(&**b),
        _ => Some(0),
    }
}

fn count_seq_groups(s: &[Pattern]) -> (r: Option<usize>)
    ensures
        r matches Some(n) ==> n == seq_groups(s@),
        r is None ==> seq_groups(s@) > usize::MAX,
    decreases seq_size(s@), 1nat, s@.len(),
{
    if s.len() == 0 {
        return Some(0);
    }
    let rest = &s[1..s.len()];
    assert(rest@ == s@.drop_first());
    match (count_groups(&s[0]), count_seq_groups(rest)) {
        (Some(a), Some(b)) => a.checked_add(b),
        _ => None,
    }
}

fn count_branch_groups(bs: &[Vec<Pattern>]) -> (r: Option<usize>)
    ensures
        r matches Some(n) ==> n == branch_groups(bs@),
        r is None ==> branch_groups(bs@) > usize::MAX,
    decreases branches_size(bs@), 2nat, bs@.len(),
{
    if bs.len() == 0 {
        return Some(0);
    }
    let rest = &bs[1..bs.len()];
    assert(rest@ == bs@.drop_first());
    match (count_seq_groups(bs[0].as_slice()), count_branch_groups(rest)) {
        (Some(a), Some(b)) => a.checked_add(b),
        _ => None,
    }
}

/// Numbers every group of a compiled sequence from 1; gives the sequence and
/// the number of indices used, or `None` when they would not fit in `usize`.
pub fn number_groups(patterns: Vec<Pattern>) -> (r: Option<(Vec<Pattern>, usize)>)
    ensures
        r matches Some((v, n)) ==> numbered_seq(patterns@, v@, 1) && n == seq_groups(patterns@),
        r is None ==> seq_groups(patterns@) >= usize::MAX,
{
    match count_seq_groups(patterns.as_slice()) {
        Some(total) => {
            if total == usize::MAX {
                return None;
            }
            let mut next_index: usize = 1;
            let v = renumber_seq(patterns, &mut next_index);
            Some((v, next_index - 1))
        },
        None => None,
    }
}

} // verus!
