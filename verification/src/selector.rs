//! Compiled CSS selectors: the grammar, its specification-level parser, and
//! the executable compiler proved equal to it.
//!
//! The supported grammar is the subset
//! `type`, `.class`, `#id`, `[attr]`, `[attr=value]` (with the optional
//! case-insensitivity flag `[attr=value i]`), `:first-child`,
//! `:last-child`, `:nth-child(an+b)`, joined by the four combinators
//! (space, `>`, `+`, `~`).  Compilation either yields the full parse or a
//! syntax error; there is no partial selector.

use vstd::prelude::*;

use crate::text::is_space;

verus! {

/// An operator relating two compound selectors through the tree.
#[derive(Clone, Copy, PartialEq, Eq, Structural, Debug)]
pub enum Combinator {
    Descendant,
    Child,
    Adjacent,
    Sibling,
}

/// One combinator-free test against a single node.
pub enum SimpleSelector {
    Tag(String),
    Id(String),
    Class(String),
    AttrExists(String),
    AttrEquals(String, String),
    AttrEqualsCaseless(String, String),
    FirstChild,
    LastChild,
    NthChild(i64, i64),
}

/// The specification-level image of a `SimpleSelector`.
pub enum SimpleSpec {
    Tag(Seq<char>),
    Id(Seq<char>),
    Class(Seq<char>),
    AttrExists(Seq<char>),
    AttrEquals(Seq<char>, Seq<char>),
    AttrEqualsCaseless(Seq<char>, Seq<char>),
    FirstChild,
    LastChild,
    NthChild(int, int),
}

impl View for SimpleSelector {
    type V = SimpleSpec;

    open spec fn view(&self) -> SimpleSpec {
        match self {
            SimpleSelector::Tag(t) => SimpleSpec::Tag(t@),
            SimpleSelector::Id(t) => SimpleSpec::Id(t@),
            SimpleSelector::Class(t) => SimpleSpec::Class(t@),
            SimpleSelector::AttrExists(t) => SimpleSpec::AttrExists(t@),
            SimpleSelector::AttrEquals(t, v) => SimpleSpec::AttrEquals(t@, v@),
            SimpleSelector::AttrEqualsCaseless(t, v) => SimpleSpec::AttrEqualsCaseless(t@, v@),
            SimpleSelector::FirstChild => SimpleSpec::FirstChild,
            SimpleSelector::LastChild => SimpleSpec::LastChild,
            SimpleSelector::NthChild(a, b) => SimpleSpec::NthChild(*a as int, *b as int),
        }
    }
}

/// A compound selector: one or more simple selectors tested together.
pub struct Compound {
    pub simples: Vec<SimpleSelector>,
}

impl View for Compound {
    type V = Seq<SimpleSpec>;

    open spec fn view(&self) -> Seq<SimpleSpec> {
        self.simples@.map_values(|s: SimpleSelector| s@)
    }
}

/// The specification-level image of a whole selector.
pub struct SelectorSpec {
    pub first: Seq<SimpleSpec>,
    pub rest: Seq<(Combinator, Seq<SimpleSpec>)>,
}

/// An immutable compiled selector.
pub struct Selector {
    pub first: Compound,
    pub rest: Vec<(Combinator, Compound)>,
}

impl View for Selector {
    type V = SelectorSpec;

    open spec fn view(&self) -> SelectorSpec {
        SelectorSpec {
            first: self.first@,
            rest: self.rest@.map_values(|p: (Combinator, Compound)| (p.0, p.1@)),
        }
    }
}

/// A selector compilation failure, carrying the rejected text.
#[derive(Debug)]
pub struct SelectorSyntaxError {
    pub text: String,
}

/// The characters an identifier may contain.
pub open spec fn is_ident_char(c: char) -> bool {
    ('a' <= c && c <= 'z') || ('A' <= c && c <= 'Z') || ('0' <= c && c <= '9') || c == '-' || c
        == '_'
}

pub open spec fn is_digit(c: char) -> bool {
    '0' <= c && c <= '9'
}

pub open spec fn digit_val(c: char) -> int {
    if c == '0' { 0 } else if c == '1' { 1 } else if c == '2' { 2 } else if c == '3' { 3 }
    else if c == '4' { 4 } else if c == '5' { 5 } else if c == '6' { 6 } else if c == '7' { 7 }
    else if c == '8' { 8 } else { 9 }
}

/// The first position at or after `i` that does not hold whitespace.
pub open spec fn skip_ws(s: Seq<char>, i: int) -> int
    decreases s.len() - i,
    when 0 <= i <= s.len()
{
    if i < s.len() && is_space(s[i]) {
        skip_ws(s, i + 1)
    } else {
        i
    }
}

/// The first position at or after `i` that does not hold an identifier
/// character.
pub open spec fn ident_end(s: Seq<char>, i: int) -> int
    decreases s.len() - i,
    when 0 <= i <= s.len()
{
    if i < s.len() && is_ident_char(s[i]) {
        ident_end(s, i + 1)
    } else {
        i
    }
}

/// The first position at or after `i` that does not hold a digit.
pub open spec fn digits_end(s: Seq<char>, i: int) -> int
    decreases s.len() - i,
    when 0 <= i <= s.len()
{
    if i < s.len() && is_digit(s[i]) {
        digits_end(s, i + 1)
    } else {
        i
    }
}

/// The value of the digit run `s[i..j]`.
pub open spec fn digits_val(s: Seq<char>, i: int, j: int) -> int
    decreases j - i,
    when 0 <= i <= j <= s.len()
{
    if i >= j {
        0
    } else {
        digits_val(s, i, j - 1) * 10 + digit_val(s[j - 1])
    }
}

/// A nonempty identifier starting at `i`: its text and the position after it.
pub open spec fn parse_ident(s: Seq<char>, i: int) -> Option<(Seq<char>, int)> {
    let j = ident_end(s, i);
    if j > i {
        Some((s.subrange(i, j), j))
    } else {
        None
    }
}

/// An unsigned integer of one to nine digits starting at `i`.
pub open spec fn parse_number(s: Seq<char>, i: int) -> Option<(int, int)> {
    let j = digits_end(s, i);
    if i < j <= i + 9 {
        Some((digits_val(s, i, j), j))
    } else {
        None
    }
}

/// The step-and-offset argument of `:nth-child`: `an+b`, `an`, `n`, or a bare
/// offset, each part optionally signed.
pub open spec fn parse_nth(s: Seq<char>, i: int) -> Option<(int, int, int)> {
    let (sign, i1): (int, int) = if i < s.len() && s[i] == '-' {
        (-1, i + 1)
    } else if i < s.len() && s[i] == '+' {
        (1, i + 1)
    } else {
        (1, i)
    };
    if i1 < s.len() && s[i1] == 'n' {
        match parse_nth_offset(s, i1 + 1) {
            Some((b, j)) => Some((sign, b, j)),
            None => None,
        }
    } else {
        match parse_number(s, i1) {
            Some((d, i2)) => if i2 < s.len() && s[i2] == 'n' {
                match parse_nth_offset(s, i2 + 1) {
                    Some((b, j)) => Some((sign * d, b, j)),
                    None => None,
                }
            } else {
                Some((0, sign * d, i2))
            },
            None => None,
        }
    }
}

/// The optional signed offset after the `n` of `an+b`; consumes nothing when
/// no sign follows.
pub open spec fn parse_nth_offset(s: Seq<char>, i: int) -> Option<(int, int)> {
    let w = skip_ws(s, i);
    if w < s.len() && (s[w] == '+' || s[w] == '-') {
        let sign: int = if s[w] == '-' {
            -1
        } else {
            1
        };
        let w2 = skip_ws(s, w + 1);
        match parse_number(s, w2) {
            Some((d, j)) => Some((sign * d, j)),
            None => None,
        }
    } else {
        Some((0, i))
    }
}

/// An attribute value: a double-quoted run or a bare identifier.
pub open spec fn parse_value(s: Seq<char>, i: int) -> Option<(Seq<char>, int)> {
    if i < s.len() && s[i] == '"' {
        let j = quote_end(s, i + 1);
        if j < s.len() {
            Some((s.subrange(i + 1, j), j + 1))
        } else {
            None
        }
    } else {
        parse_ident(s, i)
    }
}

/// The position of the closing quote at or after `i`, or the length if none.
pub open spec fn quote_end(s: Seq<char>, i: int) -> int
    decreases s.len() - i,
    when 0 <= i <= s.len()
{
    if i < s.len() && s[i] != '"' {
        quote_end(s, i + 1)
    } else {
        i
    }
}

/// One simple selector starting at `i`.
pub open spec fn parse_simple(s: Seq<char>, i: int) -> Option<(SimpleSpec, int)> {
    if i >= s.len() {
        None
    } else if s[i] == '.' {
        match parse_ident(s, i + 1) {
            Some((t, j)) => Some((SimpleSpec::Class(t), j)),
            None => None,
        }
    } else if s[i] == '#' {
        match parse_ident(s, i + 1) {
            Some((t, j)) => Some((SimpleSpec::Id(t), j)),
            None => None,
        }
    } else if s[i] == '[' {
        parse_attr(s, i + 1)
    } else if s[i] == ':' {
        parse_pseudo(s, i + 1)
    } else if is_ident_char(s[i]) {
        match parse_ident(s, i) {
            Some((t, j)) => Some((SimpleSpec::Tag(t), j)),
            None => None,
        }
    } else {
        None
    }
}

/// The inside of `[...]`, starting right after the opening bracket.
pub open spec fn parse_attr(s: Seq<char>, i: int) -> Option<(SimpleSpec, int)> {
    let w = skip_ws(s, i);
    match parse_ident(s, w) {
        Some((name, j)) => {
            let w2 = skip_ws(s, j);
            if w2 < s.len() && s[w2] == ']' {
                Some((SimpleSpec::AttrExists(name), w2 + 1))
            } else if w2 < s.len() && s[w2] == '=' {
                let w3 = skip_ws(s, w2 + 1);
                match parse_value(s, w3) {
                    Some((value, k)) => {
                        let w4 = skip_ws(s, k);
                        if w4 < s.len() && s[w4] == ']' {
                            Some((SimpleSpec::AttrEquals(name, value), w4 + 1))
                        } else if w4 < s.len() && (s[w4] == 'i' || s[w4] == 'I') {
                            let w5 = skip_ws(s, w4 + 1);
                            if w5 < s.len() && s[w5] == ']' {
                                Some((SimpleSpec::AttrEqualsCaseless(name, value), w5 + 1))
                            } else {
                                None
                            }
                        } else {
                            None
                        }
                    },
                    None => None,
                }
            } else {
                None
            }
        },
        None => None,
    }
}

/// A pseudo-class, starting right after the colon.
pub open spec fn parse_pseudo(s: Seq<char>, i: int) -> Option<(SimpleSpec, int)> {
    match parse_ident(s, i) {
        Some((name, j)) => {
            if name == "first-child"@ {
                Some((SimpleSpec::FirstChild, j))
            } else if name == "last-child"@ {
                Some((SimpleSpec::LastChild, j))
            } else if name == "nth-child"@ {
                if j < s.len() && s[j] == '(' {
                    let w = skip_ws(s, j + 1);
                    match parse_nth(s, w) {
                        Some((a, b, k)) => {
                            let w2 = skip_ws(s, k);
                            if w2 < s.len() && s[w2] == ')' {
                                Some((SimpleSpec::NthChild(a, b), w2 + 1))
                            } else {
                                None
                            }
                        },
                        None => None,
                    }
                } else {
                    None
                }
            } else {
                None
            }
        },
        None => None,
    }
}

/// A compound: one or more simple selectors with nothing between them.
pub open spec fn parse_compound(s: Seq<char>, i: int) -> Option<(Seq<SimpleSpec>, int)>
    decreases s.len() - i,
    when 0 <= i <= s.len()
{
    match parse_simple(s, i) {
        Some((x, j)) => {
            if i < j <= s.len() {
                match parse_simple(s, j) {
                    Some(_) => match parse_compound(s, j) {
                        Some((xs, k)) => Some((seq![x] + xs, k)),
                        None => None,
                    },
                    None => Some((seq![x], j)),
                }
            } else {
                None
            }
        },
        None => None,
    }
}

/// The remaining `(combinator, compound)` pairs, consuming trailing
/// whitespace.
pub open spec fn parse_rest(s: Seq<char>, i: int) -> Option<
    (Seq<(Combinator, Seq<SimpleSpec>)>, int),
>
    decreases s.len() - i,
    when 0 <= i <= s.len()
{
    let w = skip_ws(s, i);
    if w >= s.len() {
        Some((Seq::empty(), w))
    } else if s[w] == '>' || s[w] == '+' || s[w] == '~' {
        let comb = if s[w] == '>' {
            Combinator::Child
        } else if s[w] == '+' {
            Combinator::Adjacent
        } else {
            Combinator::Sibling
        };
        let v = skip_ws(s, w + 1);
        match parse_compound(s, v) {
            Some((c, j)) => {
                if i < j <= s.len() {
                    match parse_rest(s, j) {
                        Some((rs, e)) => Some((seq![(comb, c)] + rs, e)),
                        None => None,
                    }
                } else {
                    None
                }
            },
            None => None,
        }
    } else if w > i {
        match parse_compound(s, w) {
            Some((c, j)) => {
                if i < j <= s.len() {
                    match parse_rest(s, j) {
                        Some((rs, e)) => Some((seq![(Combinator::Descendant, c)] + rs, e)),
                        None => None,
                    }
                } else {
                    None
                }
            },
            None => None,
        }
    } else {
        None
    }
}

/// The full grammar: what compiling a selector string yields, if anything.
pub open spec fn parse_selector(s: Seq<char>) -> Option<SelectorSpec> {
    let w = skip_ws(s, 0);
    if 0 <= w <= s.len() {
        match parse_compound(s, w) {
            Some((c, j)) => if 0 <= j <= s.len() {
                match parse_rest(s, j) {
                    Some((rs, e)) => if e == s.len() {
                        Some(SelectorSpec { first: c, rest: rs })
                    } else {
                        None
                    },
                    None => None,
                }
            } else {
                None
            },
            None => None,
        }
    } else {
        None
    }
}

/// Ten raised to a small power; bounds the value of a digit run.
pub open spec fn p10(n: int) -> int
    decreases n,
    when n >= 0
{
    if n <= 0 {
        1
    } else {
        10 * p10(n - 1)
    }
}

proof fn lemma_digits_val_bound(s: Seq<char>, i: int, j: int)
    requires
        0 <= i <= j <= s.len(),
    ensures
        0 <= digits_val(s, i, j) < p10(j - i),
    decreases j - i,
{
    if i < j {
        lemma_digits_val_bound(s, i, j - 1);
    }
}

fn is_space_ex(c: char) -> (r: bool)
    ensures
        r == is_space(c),
{
    c == ' ' || c == '\t' || c == '\n' || c == '\r' || c == '\u{c}'
}

fn is_ident_char_ex(c: char) -> (r: bool)
    ensures
        r == is_ident_char(c),
{
    ('a' <= c && c <= 'z') || ('A' <= c && c <= 'Z') || ('0' <= c && c <= '9') || c == '-' || c
        == '_'
}

fn is_digit_ex(c: char) -> (r: bool)
    ensures
        r == is_digit(c),
{
    '0' <= c && c <= '9'
}

fn digit_val_ex(c: char) -> (r: i64)
    ensures
        r == digit_val(c),
        0 <= r <= 9,
{
    if c == '0' { 0 } else if c == '1' { 1 } else if c == '2' { 2 } else if c == '3' { 3 }
    else if c == '4' { 4 } else if c == '5' { 5 } else if c == '6' { 6 } else if c == '7' { 7 }
    else if c == '8' { 8 } else { 9 }
}

fn ws_end(s: &Vec<char>, i: usize) -> (r: usize)
    requires
        i <= s@.len(),
    ensures
        r == skip_ws(s@, i as int),
        i <= r <= s@.len(),
    decreases s@.len() - i,
{
    if i < s.len() && is_space_ex(s[i]) {
        ws_end(s, i + 1)
    } else {
        i
    }
}

fn ident_end_ex(s: &Vec<char>, i: usize) -> (r: usize)
    requires
        i <= s@.len(),
    ensures
        r == ident_end(s@, i as int),
        i <= r <= s@.len(),
    decreases s@.len() - i,
{
    if i < s.len() && is_ident_char_ex(s[i]) {
        ident_end_ex(s, i + 1)
    } else {
        i
    }
}

fn digits_end_ex(s: &Vec<char>, i: usize) -> (r: usize)
    requires
        i <= s@.len(),
    ensures
        r == digits_end(s@, i as int),
        i <= r <= s@.len(),
    decreases s@.len() - i,
{
    if i < s.len() && is_digit_ex(s[i]) {
        digits_end_ex(s, i + 1)
    } else {
        i
    }
}

fn quote_end_ex(s: &Vec<char>, i: usize) -> (r: usize)
    requires
        i <= s@.len(),
    ensures
        r == quote_end(s@, i as int),
        i <= r <= s@.len(),
    decreases s@.len() - i,
{
    if i < s.len() && s[i] != '"' {
        quote_end_ex(s, i + 1)
    } else {
        i
    }
}

fn parse_ident_ex(s: &Vec<char>, i: usize) -> (r: Option<(String, usize)>)
    requires
        i <= s@.len(),
    ensures
        match r {
            Some(p) => {
                &&& parse_ident(s@, i as int) matches Some(q)
                &&& p.0@ == q.0
                &&& p.1 == q.1
                &&& i < p.1 <= s@.len()
            },
            None => parse_ident(s@, i as int) is None,
        },
{
    let j = ident_end_ex(s, i);
    if j > i {
        Some((crate::text::chars_to_string(s, i, j), j))
    } else {
        None
    }
}

fn parse_number_ex(s: &Vec<char>, i: usize) -> (r: Option<(i64, usize)>)
    requires
        i <= s@.len(),
    ensures
        match r {
            Some(p) => {
                &&& parse_number(s@, i as int) matches Some(q)
                &&& p.0 == q.0
                &&& p.1 == q.1
                &&& i < p.1 <= s@.len()
                &&& 0 <= p.0 < 1000000000
            },
            None => parse_number(s@, i as int) is None,
        },
{
    let j = digits_end_ex(s, i);
    if j == i || j - i > 9 {
        return None;
    }
    proof {
        reveal_with_fuel(p10, 10);
        lemma_digits_val_bound(s@, i as int, j as int);
    }
    let mut v: i64 = 0;
    let mut k: usize = i;
    while k < j
        invariant
            i <= k <= j <= s@.len(),
            j - i <= 9,
            v == digits_val(s@, i as int, k as int),
            0 <= v < p10(k - i),
            p10(9) == 1000000000,
            forall|m: int| 0 <= m < 9 ==> #[trigger] p10(m) < p10(9),
        decreases j - k,
    {
        let d = digit_val_ex(s[k]);
        proof {
            reveal_with_fuel(p10, 10);
            assert(p10(k - i + 1) == 10 * p10(k - i));
        }
        v = v * 10 + d;
        k += 1;
    }
    Some((v, j))
}

fn parse_nth_offset_ex(s: &Vec<char>, i: usize) -> (r: Option<(i64, usize)>)
    requires
        i <= s@.len(),
    ensures
        match r {
            Some(p) => {
                &&& parse_nth_offset(s@, i as int) matches Some(q)
                &&& p.0 == q.0
                &&& p.1 == q.1
                &&& i <= p.1 <= s@.len()
                &&& -1000000000 < p.0 < 1000000000
            },
            None => parse_nth_offset(s@, i as int) is None,
        },
{
    let w = ws_end(s, i);
    if w < s.len() && (s[w] == '+' || s[w] == '-') {
        let sign: i64 = if s[w] == '-' {
            -1
        } else {
            1
        };
        let w2 = ws_end(s, w + 1);
        match parse_number_ex(s, w2) {
            Some((d, j)) => Some((sign * d, j)),
            None => None,
        }
    } else {
        Some((0, i))
    }
}

fn parse_nth_ex(s: &Vec<char>, i: usize) -> (r: Option<(i64, i64, usize)>)
    requires
        i <= s@.len(),
    ensures
        match r {
            Some(p) => {
                &&& parse_nth(s@, i as int) matches Some(q)
                &&& p.0 == q.0
                &&& p.1 == q.1
                &&& p.2 == q.2
                &&& i <= p.2 <= s@.len()
            },
            None => parse_nth(s@, i as int) is None,
        },
{
    let (sign, i1): (i64, usize) = if i < s.len() && s[i] == '-' {
        (-1, i + 1)
    } else if i < s.len() && s[i] == '+' {
        (1, i + 1)
    } else {
        (1, i)
    };
    if i1 < s.len() && s[i1] == 'n' {
        match parse_nth_offset_ex(s, i1 + 1) {
            Some((b, j)) => Some((sign, b, j)),
            None => None,
        }
    } else {
        match parse_number_ex(s, i1) {
            Some((d, i2)) => if i2 < s.len() && s[i2] == 'n' {
                match parse_nth_offset_ex(s, i2 + 1) {
                    Some((b, j)) => Some((sign * d, b, j)),
                    None => None,
                }
            } else {
                Some((0, sign * d, i2))
            },
            None => None,
        }
    }
}

fn parse_value_ex(s: &Vec<char>, i: usize) -> (r: Option<(String, usize)>)
    requires
        i <= s@.len(),
    ensures
        match r {
            Some(p) => {
                &&& parse_value(s@, i as int) matches Some(q)
                &&& p.0@ == q.0
                &&& p.1 == q.1
                &&& i < p.1 <= s@.len()
            },
            None => parse_value(s@, i as int) is None,
        },
{
    if i < s.len() && s[i] == '"' {
        let j = quote_end_ex(s, i + 1);
        if j < s.len() {
            Some((crate::text::chars_to_string(s, i + 1, j), j + 1))
        } else {
            None
        }
    } else {
        parse_ident_ex(s, i)
    }
}

fn parse_attr_ex(s: &Vec<char>, i: usize) -> (r: Option<(SimpleSelector, usize)>)
    requires
        i <= s@.len(),
    ensures
        match r {
            Some(p) => {
                &&& parse_attr(s@, i as int) matches Some(q)
                &&& p.0@ == q.0
                &&& p.1 == q.1
                &&& i < p.1 <= s@.len()
            },
            None => parse_attr(s@, i as int) is None,
        },
{
    let w = ws_end(s, i);
    match parse_ident_ex(s, w) {
        Some((name, j)) => {
            let w2 = ws_end(s, j);
            if w2 < s.len() && s[w2] == ']' {
                Some((SimpleSelector::AttrExists(name), w2 + 1))
            } else if w2 < s.len() && s[w2] == '=' {
                let w3 = ws_end(s, w2 + 1);
                match parse_value_ex(s, w3) {
                    Some((value, k)) => {
                        let w4 = ws_end(s, k);
                        if w4 < s.len() && s[w4] == ']' {
                            Some((SimpleSelector::AttrEquals(name, value), w4 + 1))
                        } else if w4 < s.len() && (s[w4] == 'i' || s[w4] == 'I') {
                            let w5 = ws_end(s, w4 + 1);
                            if w5 < s.len() && s[w5] == ']' {
                                Some((SimpleSelector::AttrEqualsCaseless(name, value), w5 + 1))
                            } else {
                                None
                            }
                        } else {
                            None
                        }
                    },
                    None => None,
                }
            } else {
                None
            }
        },
        None => None,
    }
}

fn parse_pseudo_ex(s: &Vec<char>, i: usize) -> (r: Option<(SimpleSelector, usize)>)
    requires
        i <= s@.len(),
    ensures
        match r {
            Some(p) => {
                &&& parse_pseudo(s@, i as int) matches Some(q)
                &&& p.0@ == q.0
                &&& p.1 == q.1
                &&& i < p.1 <= s@.len()
            },
            None => parse_pseudo(s@, i as int) is None,
        },
{
    match parse_ident_ex(s, i) {
        Some((name, j)) => {
            if crate::text::str_eq(name.as_str(), "first-child") {
                Some((SimpleSelector::FirstChild, j))
            } else if crate::text::str_eq(name.as_str(), "last-child") {
                Some((SimpleSelector::LastChild, j))
            } else if crate::text::str_eq(name.as_str(), "nth-child") {
                if j < s.len() && s[j] == '(' {
                    let w = ws_end(s, j + 1);
                    match parse_nth_ex(s, w) {
                        Some((a, b, k)) => {
                            let w2 = ws_end(s, k);
                            if w2 < s.len() && s[w2] == ')' {
                                Some((SimpleSelector::NthChild(a, b), w2 + 1))
                            } else {
                                None
                            }
                        },
                        None => None,
                    }
                } else {
                    None
                }
            } else {
                None
            }
        },
        None => None,
    }
}

fn parse_simple_ex(s: &Vec<char>, i: usize) -> (r: Option<(SimpleSelector, usize)>)
    requires
        i <= s@.len(),
    ensures
        match r {
            Some(p) => {
                &&& parse_simple(s@, i as int) matches Some(q)
                &&& p.0@ == q.0
                &&& p.1 == q.1
                &&& i < p.1 <= s@.len()
            },
            None => parse_simple(s@, i as int) is None,
        },
{
    if i >= s.len() {
        None
    } else if s[i] == '.' {
        match parse_ident_ex(s, i + 1) {
            Some((t, j)) => Some((SimpleSelector::Class(t), j)),
            None => None,
        }
    } else if s[i] == '#' {
        match parse_ident_ex(s, i + 1) {
            Some((t, j)) => Some((SimpleSelector::Id(t), j)),
            None => None,
        }
    } else if s[i] == '[' {
        parse_attr_ex(s, i + 1)
    } else if s[i] == ':' {
        parse_pseudo_ex(s, i + 1)
    } else if is_ident_char_ex(s[i]) {
        match parse_ident_ex(s, i) {
            Some((t, j)) => Some((SimpleSelector::Tag(t), j)),
            None => None,
        }
    } else {
        None
    }
}

fn parse_compound_ex(s: &Vec<char>, i: usize) -> (r: Option<(Compound, usize)>)
    requires
        i <= s@.len(),
    ensures
        match r {
            Some(p) => {
                &&& parse_compound(s@, i as int) matches Some(q)
                &&& p.0@ == q.0
                &&& p.1 == q.1
                &&& i < p.1 <= s@.len()
            },
            None => parse_compound(s@, i as int) is None,
        },
    decreases s@.len() - i,
{
    match parse_simple_ex(s, i) {
        Some((x, j)) => {
            match parse_simple_ex(s, j) {
                Some(_) => {
                    match parse_compound_ex(s, j) {
                        Some((mut c, k)) => {
                            c.simples.insert(0, x);
                            proof {
                                let q = parse_compound(s@, i as int)->0;
                                assert(c@ =~= q.0);
                            }
                            Some((c, k))
                        },
                        None => None,
                    }
                },
                None => {
                    let mut simples: Vec<SimpleSelector> = Vec::new();
                    simples.push(x);
                    let c = Compound { simples };
                    proof {
                        let q = parse_compound(s@, i as int)->0;
                        assert(c@ =~= q.0);
                    }
                    Some((c, j))
                },
            }
        },
        None => None,
    }
}

fn parse_rest_ex(s: &Vec<char>, i: usize) -> (r: Option<(Vec<(Combinator, Compound)>, usize)>)
    requires
        i <= s@.len(),
    ensures
        match r {
            Some(p) => {
                &&& parse_rest(s@, i as int) matches Some(q)
                &&& p.0@.map_values(|e: (Combinator, Compound)| (e.0, e.1@)) == q.0
                &&& p.1 == q.1
                &&& i <= p.1 <= s@.len()
            },
            None => parse_rest(s@, i as int) is None,
        },
    decreases s@.len() - i,
{
    let w = ws_end(s, i);
    if w >= s.len() {
        let out: Vec<(Combinator, Compound)> = Vec::new();
        proof {
            let q = parse_rest(s@, i as int)->0;
            assert(out@.map_values(|e: (Combinator, Compound)| (e.0, e.1@)) =~= q.0);
        }
        Some((out, w))
    } else if s[w] == '>' || s[w] == '+' || s[w] == '~' {
        let comb = if s[w] == '>' {
            Combinator::Child
        } else if s[w] == '+' {
            Combinator::Adjacent
        } else {
            Combinator::Sibling
        };
        let v = ws_end(s, w + 1);
        match parse_compound_ex(s, v) {
            Some((c, j)) => {
                if i < j {
                    match parse_rest_ex(s, j) {
                        Some((mut rs, e)) => {
                            rs.insert(0, (comb, c));
                            proof {
                                let q = parse_rest(s@, i as int)->0;
                                assert(rs@.map_values(|e2: (Combinator, Compound)| (e2.0, e2.1@))
                                    =~= q.0);
                            }
                            Some((rs, e))
                        },
                        None => None,
                    }
                } else {
                    None
                }
            },
            None => None,
        }
    } else if w > i {
        match parse_compound_ex(s, w) {
            Some((c, j)) => {
                if i < j {
                    match parse_rest_ex(s, j) {
                        Some((mut rs, e)) => {
                            rs.insert(0, (Combinator::Descendant, c));
                            proof {
                                let q = parse_rest(s@, i as int)->0;
                                assert(rs@.map_values(|e2: (Combinator, Compound)| (e2.0, e2.1@))
                                    =~= q.0);
                            }
                            Some((rs, e))
                        },
                        None => None,
                    }
                } else {
                    None
                }
            },
            None => None,
        }
    } else {
        None
    }
}

impl Selector {
    /// Compiles a selector string.  The result is exactly what the grammar
    /// `parse_selector` assigns to the text: a syntax error if and only if
    /// the text is not in the grammar, and otherwise the full parse.
    pub fn try_parse(text: &str) -> (r: Result<Selector, SelectorSyntaxError>)
        ensures
            match r {
                Ok(sel) => {
                    &&& parse_selector(text@) matches Some(sp)
                    &&& sel@ == sp
                },
                Err(e) => {
                    &&& parse_selector(text@) is None
                    &&& e.text@ == text@
                },
            },
    {
        let n = text.unicode_len();
        let mut chars: Vec<char> = Vec::new();
        let mut i: usize = 0;
        while i < n
            invariant
                n == text@.len(),
                0 <= i <= n,
                chars@ == text@.subrange(0, i as int),
            decreases n - i,
        {
            chars.push(text.get_char(i));
            proof {
                assert(text@.subrange(0, i + 1 as int) =~= text@.subrange(0, i as int).push(
                    text@[i as int],
                ));
            }
            i += 1;
        }
        proof {
            assert(chars@ =~= text@);
        }
        let s = &chars;
        let w = ws_end(s, 0);
        match parse_compound_ex(s, w) {
            Some((c, j)) => {
                match parse_rest_ex(s, j) {
                    Some((rs, e)) => {
                        if e == s.len() {
                            let sel = Selector { first: c, rest: rs };
                            proof {
                                let sp = parse_selector(text@)->0;
                                assert(sel@.rest =~= sp.rest);
                            }
                            Ok(sel)
                        } else {
                            Err(SelectorSyntaxError { text: String::from_str(text) })
                        }
                    },
                    None => Err(SelectorSyntaxError { text: String::from_str(text) }),
                }
            },
            None => Err(SelectorSyntaxError { text: String::from_str(text) }),
        }
    }

    /// Compiles a selector string that the caller knows to be valid.
    pub fn new(text: &str) -> (r: Selector)
        requires
            parse_selector(text@) is Some,
        ensures
            r@ == parse_selector(text@)->0,
    {
        match Self::try_parse(text) {
            Ok(sel) => sel,
            Err(_) => {
                // unreachable under the precondition
                Selector { first: Compound { simples: Vec::new() }, rest: Vec::new() }
            },
        }
    }
}


} // verus!
