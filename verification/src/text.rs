//! Verified text helpers: ASCII case folding, string comparison, and the
//! whitespace-separated token test used for class matching.

use vstd::prelude::*;

verus! {

/// ASCII lowercase of one character; anything outside `A`..`Z` is unchanged.
pub open spec fn lower_char(c: char) -> char {
    if c == 'A' { 'a' } else if c == 'B' { 'b' } else if c == 'C' { 'c' }
    else if c == 'D' { 'd' } else if c == 'E' { 'e' } else if c == 'F' { 'f' }
    else if c == 'G' { 'g' } else if c == 'H' { 'h' } else if c == 'I' { 'i' }
    else if c == 'J' { 'j' } else if c == 'K' { 'k' } else if c == 'L' { 'l' }
    else if c == 'M' { 'm' } else if c == 'N' { 'n' } else if c == 'O' { 'o' }
    else if c == 'P' { 'p' } else if c == 'Q' { 'q' } else if c == 'R' { 'r' }
    else if c == 'S' { 's' } else if c == 'T' { 't' } else if c == 'U' { 'u' }
    else if c == 'V' { 'v' } else if c == 'W' { 'w' } else if c == 'X' { 'x' }
    else if c == 'Y' { 'y' } else if c == 'Z' { 'z' } else { c }
}

/// ASCII lowercase of a whole character sequence.
pub open spec fn lower(s: Seq<char>) -> Seq<char> {
    s.map_values(|c: char| lower_char(c))
}

/// The characters that separate tokens in a `class` attribute value.
pub open spec fn is_space(c: char) -> bool {
    c == ' ' || c == '\t' || c == '\n' || c == '\r' || c == '\u{c}'
}

/// `cls` occurs in `attr` as a whole whitespace-separated token.
pub open spec fn has_class_token(attr: Seq<char>, cls: Seq<char>) -> bool {
    &&& cls.len() > 0
    &&& exists|i: int|
        {
            &&& 0 <= i
            &&& i + cls.len() <= attr.len()
            &&& #[trigger] attr.subrange(i, i + cls.len()) == cls
            &&& (i == 0 || is_space(attr[i - 1]))
            &&& (i + cls.len() == attr.len() || is_space(attr[i + cls.len()]))
        }
}

/// Relies on std's `String::push`: appends exactly the given character.
pub assume_specification[ String::push ](s: &mut String, c: char)
    ensures
        final(s)@ == old(s)@.push(c),
;

/// Builds an owned string out of the character range `s[i..j]`.
pub fn chars_to_string(s: &Vec<char>, i: usize, j: usize) -> (r: String)
    requires
        i <= j <= s@.len(),
    ensures
        r@ == s@.subrange(i as int, j as int),
{
    let mut out = String::new();
    let mut k: usize = i;
    while k < j
        invariant
            i <= k <= j <= s@.len(),
            out@ == s@.subrange(i as int, k as int),
        decreases j - k,
    {
        out.push(s[k]);
        proof {
            assert(s@.subrange(i as int, k + 1 as int) =~= s@.subrange(i as int, k as int).push(
                s@[k as int],
            ));
        }
        k += 1;
    }
    out
}

/// The ASCII-lowercase copy of a string, exactly `lower`.
pub fn lower_str(s: &str) -> (r: String)
    ensures
        r@ == lower(s@),
{
    let n = s.unicode_len();
    let mut out = String::new();
    let mut k: usize = 0;
    while k < n
        invariant
            n == s@.len(),
            0 <= k <= n,
            out@ == lower(s@.subrange(0, k as int)),
        decreases n - k,
    {
        out.push(lower_char_ex(s.get_char(k)));
        proof {
            assert(lower(s@.subrange(0, k + 1 as int)) =~= lower(s@.subrange(0, k as int)).push(
                lower_char(s@[k as int]),
            ));
        }
        k += 1;
    }
    proof {
        assert(s@.subrange(0, n as int) =~= s@);
    }
    out
}

/// The characters of a string, as a vector.
pub fn str_chars(s: &str) -> (r: Vec<char>)
    ensures
        r@ == s@,
{
    let n = s.unicode_len();
    let mut chars: Vec<char> = Vec::new();
    let mut i: usize = 0;
    while i < n
        invariant
            n == s@.len(),
            0 <= i <= n,
            chars@ == s@.subrange(0, i as int),
        decreases n - i,
    {
        chars.push(s.get_char(i));
        proof {
            assert(s@.subrange(0, i + 1 as int) =~= s@.subrange(0, i as int).push(s@[i as int]));
        }
        i += 1;
    }
    proof {
        assert(chars@ =~= s@);
    }
    chars
}

/// The first position at or after `i` that holds no whitespace.
pub open spec fn ws_run_end(s: Seq<char>, i: int) -> int
    decreases s.len() - i,
    when 0 <= i <= s.len()
{
    if i < s.len() && is_space(s[i]) {
        ws_run_end(s, i + 1)
    } else {
        i
    }
}

/// The start of the whitespace run that ends at `j`.
pub open spec fn ws_run_start(s: Seq<char>, j: int) -> int
    decreases j,
    when 0 <= j <= s.len()
{
    if j > 0 && is_space(s[j - 1]) {
        ws_run_start(s, j - 1)
    } else {
        j
    }
}

/// The string with the leading and trailing whitespace runs removed.
pub open spec fn trim(s: Seq<char>) -> Seq<char> {
    let a = ws_run_end(s, 0);
    let b = ws_run_start(s, s.len() as int);
    if a <= b {
        s.subrange(a, b)
    } else {
        Seq::empty()
    }
}

fn ws_run_end_ex(s: &Vec<char>, i: usize) -> (r: usize)
    requires
        i <= s@.len(),
    ensures
        r == ws_run_end(s@, i as int),
        i <= r <= s@.len(),
    decreases s@.len() - i,
{
    if i < s.len() && (s[i] == ' ' || s[i] == '\t' || s[i] == '\n' || s[i] == '\r' || s[i]
        == '\u{c}') {
        ws_run_end_ex(s, i + 1)
    } else {
        i
    }
}

fn ws_run_start_ex(s: &Vec<char>, j: usize) -> (r: usize)
    requires
        j <= s@.len(),
    ensures
        r == ws_run_start(s@, j as int),
        r <= j,
    decreases j,
{
    if j > 0 && (s[j - 1] == ' ' || s[j - 1] == '\t' || s[j - 1] == '\n' || s[j - 1] == '\r'
        || s[j - 1] == '\u{c}') {
        ws_run_start_ex(s, j - 1)
    } else {
        j
    }
}

/// A copy of the string without its leading and trailing whitespace,
/// exactly `trim`.
pub fn trim_str(x: &str) -> (r: String)
    ensures
        r@ == trim(x@),
{
    let chars = str_chars(x);
    let n = chars.len();
    let a = ws_run_end_ex(&chars, 0);
    let b = ws_run_start_ex(&chars, n);
    if a <= b {
        chars_to_string(&chars, a, b)
    } else {
        String::new()
    }
}

/// Exec counterpart of `lower_char`.
pub fn lower_char_ex(c: char) -> (r: char)
    ensures
        r == lower_char(c),
{
    if c == 'A' { 'a' } else if c == 'B' { 'b' } else if c == 'C' { 'c' }
    else if c == 'D' { 'd' } else if c == 'E' { 'e' } else if c == 'F' { 'f' }
    else if c == 'G' { 'g' } else if c == 'H' { 'h' } else if c == 'I' { 'i' }
    else if c == 'J' { 'j' } else if c == 'K' { 'k' } else if c == 'L' { 'l' }
    else if c == 'M' { 'm' } else if c == 'N' { 'n' } else if c == 'O' { 'o' }
    else if c == 'P' { 'p' } else if c == 'Q' { 'q' } else if c == 'R' { 'r' }
    else if c == 'S' { 's' } else if c == 'T' { 't' } else if c == 'U' { 'u' }
    else if c == 'V' { 'v' } else if c == 'W' { 'w' } else if c == 'X' { 'x' }
    else if c == 'Y' { 'y' } else if c == 'Z' { 'z' } else { c }
}

/// Character-for-character equality of two strings.
pub fn str_eq(a: &str, b: &str) -> (r: bool)
    ensures
        r == (a@ == b@),
{
    let n = a.unicode_len();
    if n != b.unicode_len() {
        proof {
            assert(a@.len() != b@.len());
        }
        return false;
    }
    let mut i: usize = 0;
    while i < n
        invariant
            n == a@.len(),
            n == b@.len(),
            0 <= i <= n,
            forall|k: int| 0 <= k < i ==> a@[k] == b@[k],
        decreases n - i,
    {
        if a.get_char(i) != b.get_char(i) {
            return false;
        }
        i += 1;
    }
    proof {
        assert(a@ =~= b@);
    }
    true
}

/// Equality of two strings up to ASCII case.
pub fn eq_ignore_ascii_case(a: &str, b: &str) -> (r: bool)
    ensures
        r == (lower(a@) == lower(b@)),
{
    let n = a.unicode_len();
    if n != b.unicode_len() {
        proof {
            assert(lower(a@).len() != lower(b@).len());
        }
        return false;
    }
    let mut i: usize = 0;
    while i < n
        invariant
            n == a@.len(),
            n == b@.len(),
            0 <= i <= n,
            forall|k: int| 0 <= k < i ==> lower_char(a@[k]) == lower_char(b@[k]),
        decreases n - i,
    {
        if lower_char_ex(a.get_char(i)) != lower_char_ex(b.get_char(i)) {
            proof {
                assert(lower(a@)[i as int] != lower(b@)[i as int]);
            }
            return false;
        }
        i += 1;
    }
    proof {
        assert(lower(a@) =~= lower(b@));
    }
    true
}

/// Whether `cls` matches `attr` starting at position `i`.
fn substr_match(attr: &str, i: usize, cls: &str) -> (r: bool)
    requires
        i + cls@.len() <= attr@.len(),
    ensures
        r == (attr@.subrange(i as int, i + cls@.len()) == cls@),
{
    let n = attr.unicode_len();
    let m = cls.unicode_len();
    let mut j: usize = 0;
    while j < m
        invariant
            n == attr@.len(),
            m == cls@.len(),
            i + m <= n,
            0 <= j <= m,
            forall|k: int| 0 <= k < j ==> attr@[i + k] == cls@[k],
        decreases m - j,
    {
        if attr.get_char(i + j) != cls.get_char(j) {
            proof {
                assert(attr@.subrange(i as int, i + cls@.len())[j as int] != cls@[j as int]);
            }
            return false;
        }
        j += 1;
    }
    proof {
        assert(attr@.subrange(i as int, i + cls@.len()) =~= cls@);
    }
    true
}

/// Whether position `i` of `attr` starts a whole-token occurrence of `cls`.
fn token_at(attr: &str, i: usize, cls: &str) -> (r: bool)
    requires
        i + cls@.len() <= attr@.len(),
    ensures
        r == {
            &&& attr@.subrange(i as int, i + cls@.len()) == cls@
            &&& (i == 0 || is_space(attr@[i - 1]))
            &&& (i + cls@.len() == attr@.len() || is_space(attr@[i + cls@.len()]))
        },
{
    let n = attr.unicode_len();
    let m = cls.unicode_len();
    let before_ok = if i == 0 {
        true
    } else {
        let c = attr.get_char(i - 1);
        c == ' ' || c == '\t' || c == '\n' || c == '\r' || c == '\u{c}'
    };
    if !before_ok {
        return false;
    }
    let after_ok = if i + m == n {
        true
    } else {
        let c = attr.get_char(i + m);
        c == ' ' || c == '\t' || c == '\n' || c == '\r' || c == '\u{c}'
    };
    if !after_ok {
        return false;
    }
    substr_match(attr, i, cls)
}

/// Exec counterpart of `has_class_token`: a linear scan over every start
/// position.
pub fn contains_class_token(attr: &str, cls: &str) -> (r: bool)
    ensures
        r == has_class_token(attr@, cls@),
{
    let n = attr.unicode_len();
    let m = cls.unicode_len();
    if m == 0 || m > n {
        return false;
    }
    let mut i: usize = 0;
    while i <= n - m
        invariant
            n == attr@.len(),
            m == cls@.len(),
            0 < m <= n,
            0 <= i,
            i <= n - m + 1,
            forall|w: int|
                0 <= w < i ==> !{
                    &&& #[trigger] attr@.subrange(w, w + cls@.len()) == cls@
                    &&& (w == 0 || is_space(attr@[w - 1]))
                    &&& (w + cls@.len() == attr@.len() || is_space(attr@[w + cls@.len()]))
                },
        decreases n - i,
    {
        if token_at(attr, i, cls) {
            proof {
                assert(has_class_token(attr@, cls@));
            }
            return true;
        }
        i += 1;
    }
    proof {
        assert forall|w: int|
            0 <= w && w + cls@.len() <= attr@.len() implies !{
                &&& #[trigger] attr@.subrange(w, w + cls@.len()) == cls@
                &&& (w == 0 || is_space(attr@[w - 1]))
                &&& (w + cls@.len() == attr@.len() || is_space(attr@[w + cls@.len()]))
            } by {
            assert(w < i);
        }
    }
    false
}

} // verus!
