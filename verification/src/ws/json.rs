//! The grammar of the text that exchanges send, byte by byte: spaces,
//! strings, numbers, and values of any kind, which are read only to be
//! passed over.

use vstd::prelude::*;

verus! {

/// How deep arrays and objects may nest inside a value that is skipped.
pub const MAX_DEPTH: usize = 128;

/// The space.
pub const SPACE: u8 = 0x20;

/// The byte `\t`.
pub const TAB: u8 = 0x09;

/// The byte `\n`.
pub const LINE_FEED: u8 = 0x0a;

/// The byte `\r`.
pub const CARRIAGE_RETURN: u8 = 0x0d;

/// The byte `0`.
pub const DIGIT_0: u8 = 0x30;

/// The byte `9`.
pub const DIGIT_9: u8 = 0x39;

/// The byte `a`.
pub const LOWER_A: u8 = 0x61;

/// The byte `f`.
pub const LOWER_F: u8 = 0x66;

/// The byte `A`.
pub const UPPER_A: u8 = 0x41;

/// The byte `F`.
pub const UPPER_F: u8 = 0x46;

/// The byte `"`.
pub const QUOTE: u8 = 0x22;

/// The byte `\`.
pub const BACKSLASH: u8 = 0x5c;

/// The byte `/`.
pub const SLASH: u8 = 0x2f;

/// The byte `b`.
pub const LOWER_B: u8 = 0x62;

/// The byte `n`.
pub const LOWER_N: u8 = 0x6e;

/// The byte `r`.
pub const LOWER_R: u8 = 0x72;

/// The byte `t`.
pub const LOWER_T: u8 = 0x74;

/// The byte `u`.
pub const LOWER_U: u8 = 0x75;

/// The byte `.`.
pub const DOT: u8 = 0x2e;

/// The byte `e`.
pub const LOWER_E: u8 = 0x65;

/// The byte `E`.
pub const UPPER_E: u8 = 0x45;

/// The byte `+`.
pub const PLUS: u8 = 0x2b;

/// The byte `-`.
pub const MINUS: u8 = 0x2d;

/// The byte `l`.
pub const LOWER_L: u8 = 0x6c;

/// The byte `s`.
pub const LOWER_S: u8 = 0x73;

/// The byte `[`.
pub const OPEN_BRACKET: u8 = 0x5b;

/// The byte `]`.
pub const CLOSE_BRACKET: u8 = 0x5d;

/// The byte `{`.
pub const OPEN_BRACE: u8 = 0x7b;

/// The byte `}`.
pub const CLOSE_BRACE: u8 = 0x7d;

/// The byte `,`.
pub const COMMA: u8 = 0x2c;

/// The byte `:`.
pub const COLON: u8 = 0x3a;

/// True for the four bytes that may separate the tokens of a message.
pub open spec fn is_space(b: u8) -> bool {
    b == SPACE || b == TAB || b == LINE_FEED || b == CARRIAGE_RETURN
}

/// True for a decimal digit.
pub open spec fn is_digit(b: u8) -> bool {
    DIGIT_0 <= b <= DIGIT_9
}

/// True for a hexadecimal digit.
pub open spec fn is_hex(b: u8) -> bool {
    is_digit(b) || (LOWER_A <= b <= LOWER_F) || (UPPER_A <= b <= UPPER_F)
}

/// True for a byte that may follow a backslash on its own.
pub open spec fn is_escape(b: u8) -> bool {
    b == QUOTE || b == BACKSLASH || b == SLASH || b == LOWER_B || b == LOWER_F || b == LOWER_N || b == LOWER_R || b
        == LOWER_T
}

/// The first position at or after `i` that holds no space.
pub open spec fn space_end(s: Seq<u8>, i: int) -> int
    decreases s.len() - i,
{
    if 0 <= i < s.len() && is_space(s[i]) {
        space_end(s, i + 1)
    } else {
        i
    }
}

/// The first position at or after `i` that holds no digit.
pub open spec fn digits_end(s: Seq<u8>, i: int) -> int
    decreases s.len() - i,
{
    if 0 <= i < s.len() && is_digit(s[i]) {
        digits_end(s, i + 1)
    } else {
        i
    }
}

/// The position after the closing quote of a string, given a position `i`
/// inside it. A backslash must start an escape, and no byte below a space
/// may stand in a string.
pub open spec fn string_rest_end(s: Seq<u8>, i: int) -> Option<int>
    decreases s.len() - i,
{
    if i < 0 || i >= s.len() {
        None
    } else if s[i] == QUOTE {
        Some(i + 1)
    } else if s[i] == BACKSLASH {
        if i + 1 < s.len() && is_escape(s[i + 1]) {
            string_rest_end(s, i + 2)
        } else if i + 5 < s.len() && s[i + 1] == LOWER_U && is_hex(s[i + 2]) && is_hex(s[i + 3])
            && is_hex(s[i + 4]) && is_hex(s[i + 5]) {
            string_rest_end(s, i + 6)
        } else {
            None
        }
    } else if s[i] < 0x20 {
        None
    } else {
        string_rest_end(s, i + 1)
    }
}

/// The position after the string that opens at `i`, if one does.
pub open spec fn string_end(s: Seq<u8>, i: int) -> Option<int> {
    if 0 <= i < s.len() && s[i] == QUOTE {
        string_rest_end(s, i + 1)
    } else {
        None
    }
}

/// The position after the fraction that may follow the integer part of a
/// number ending at `i`.
pub open spec fn fraction_end(s: Seq<u8>, i: int) -> Option<int> {
    if 0 <= i < s.len() && s[i] == DOT {
        if i + 1 < s.len() && is_digit(s[i + 1]) {
            Some(digits_end(s, i + 1))
        } else {
            None
        }
    } else {
        Some(i)
    }
}

/// The position after the exponent that may follow a number ending at `i`.
pub open spec fn exponent_end(s: Seq<u8>, i: int) -> Option<int> {
    if 0 <= i < s.len() && (s[i] == LOWER_E || s[i] == UPPER_E) {
        let j = if i + 1 < s.len() && (s[i + 1] == PLUS || s[i + 1] == MINUS) {
            i + 2
        } else {
            i + 1
        };
        if 0 <= j < s.len() && is_digit(s[j]) {
            Some(digits_end(s, j))
        } else {
            None
        }
    } else {
        Some(i)
    }
}

/// The position after the number that starts at `i`, if one does: an
/// optional minus, an integer part without a needless leading zero, an
/// optional fraction and an optional exponent.
pub open spec fn number_end(s: Seq<u8>, i: int) -> Option<int> {
    let a = if 0 <= i < s.len() && s[i] == MINUS {
        i + 1
    } else {
        i
    };
    if 0 <= a < s.len() && is_digit(s[a]) {
        let b = if s[a] == DIGIT_0 {
            a + 1
        } else {
            digits_end(s, a)
        };
        match fraction_end(s, b) {
            Some(c) => exponent_end(s, c),
            None => None,
        }
    } else {
        None
    }
}

/// True when `word` stands in `s` at `i`.
pub open spec fn has_word(s: Seq<u8>, i: int, word: Seq<u8>) -> bool {
    0 <= i && i + word.len() <= s.len() && s.subrange(i, i + word.len()) == word
}

/// The bytes of `true`.
pub open spec fn word_true() -> Seq<u8> {
    seq![LOWER_T, LOWER_R, LOWER_U, LOWER_E]
}

/// The bytes of `false`.
pub open spec fn word_false() -> Seq<u8> {
    seq![LOWER_F, LOWER_A, LOWER_L, LOWER_S, LOWER_E]
}

/// The bytes of `null`.
pub open spec fn word_null() -> Seq<u8> {
    seq![LOWER_N, LOWER_U, LOWER_L, LOWER_L]
}

/// The position after the value that starts at `i`, if a well-formed one
/// does whose arrays and objects nest at most `depth` deep.
pub open spec fn value_end(s: Seq<u8>, i: int, depth: nat) -> Option<int>
    decreases depth, s.len() - i, 0nat,
{
    if i < 0 || i >= s.len() {
        None
    } else if s[i] == QUOTE {
        string_end(s, i)
    } else if s[i] == OPEN_BRACKET {
        if depth == 0 {
            None
        } else {
            let j = space_end(s, i + 1);
            if 0 <= j < s.len() && s[j] == CLOSE_BRACKET {
                Some(j + 1)
            } else {
                elements_end(s, j, (depth - 1) as nat)
            }
        }
    } else if s[i] == OPEN_BRACE {
        if depth == 0 {
            None
        } else {
            let j = space_end(s, i + 1);
            if 0 <= j < s.len() && s[j] == CLOSE_BRACE {
                Some(j + 1)
            } else {
                members_end(s, j, (depth - 1) as nat)
            }
        }
    } else if s[i] == LOWER_T {
        if has_word(s, i, word_true()) {
            Some(i + 4)
        } else {
            None
        }
    } else if s[i] == LOWER_F {
        if has_word(s, i, word_false()) {
            Some(i + 5)
        } else {
            None
        }
    } else if s[i] == LOWER_N {
        if has_word(s, i, word_null()) {
            Some(i + 4)
        } else {
            None
        }
    } else {
        number_end(s, i)
    }
}

/// The position after the bracket that closes an array, given the position
/// `i` of one of its elements.
pub open spec fn elements_end(s: Seq<u8>, i: int, depth: nat) -> Option<int>
    decreases depth, s.len() - i, 1nat,
{
    match value_end(s, i, depth) {
        None => None,
        Some(j) => {
            let k = space_end(s, j);
            if 0 <= k < s.len() && s[k] == CLOSE_BRACKET {
                Some(k + 1)
            } else if 0 <= k < s.len() && s[k] == COMMA {
                let next = space_end(s, k + 1);
                if i < next <= s.len() {
                    elements_end(s, next, depth)
                } else {
                    None
                }
            } else {
                None
            }
        },
    }
}

/// The position after the value of the member whose name opens at `i`:
/// a string, a colon and a value, with spaces between them at will.
pub open spec fn member_end(s: Seq<u8>, i: int, depth: nat) -> Option<int>
    decreases depth, s.len() - i, 1nat,
{
    match string_end(s, i) {
        None => None,
        Some(j) => {
            let k = space_end(s, j);
            if 0 <= k < s.len() && s[k] == COLON {
                let v = space_end(s, k + 1);
                if i < v <= s.len() {
                    value_end(s, v, depth)
                } else {
                    None
                }
            } else {
                None
            }
        },
    }
}

/// The position after the brace that closes an object, given the position
/// `i` of the name of one of its members.
pub open spec fn members_end(s: Seq<u8>, i: int, depth: nat) -> Option<int>
    decreases depth, s.len() - i, 2nat,
{
    match member_end(s, i, depth) {
        None => None,
        Some(j) => {
            let k = space_end(s, j);
            if 0 <= k < s.len() && s[k] == CLOSE_BRACE {
                Some(k + 1)
            } else if 0 <= k < s.len() && s[k] == COMMA {
                let next = space_end(s, k + 1);
                if i < next <= s.len() {
                    members_end(s, next, depth)
                } else {
                    None
                }
            } else {
                None
            }
        },
    }
}

/// Skipping spaces moves forward and stays inside the text.
pub proof fn lemma_space_end_bounds(s: Seq<u8>, i: int)
    requires
        0 <= i <= s.len(),
    ensures
        i <= space_end(s, i) <= s.len(),
    decreases s.len() - i,
{
    if i < s.len() && is_space(s[i]) {
        lemma_space_end_bounds(s, i + 1);
    }
}

/// Skipping digits moves forward and stays inside the text.
pub proof fn lemma_digits_end_bounds(s: Seq<u8>, i: int)
    requires
        0 <= i <= s.len(),
    ensures
        i <= digits_end(s, i) <= s.len(),
    decreases s.len() - i,
{
    if i < s.len() && is_digit(s[i]) {
        lemma_digits_end_bounds(s, i + 1);
    }
}

/// A string ends after where it is read from, inside the text.
pub proof fn lemma_string_rest_end_bounds(s: Seq<u8>, i: int)
    requires
        string_rest_end(s, i) is Some,
    ensures
        i < string_rest_end(s, i).unwrap() <= s.len(),
    decreases s.len() - i,
{
    if s[i] == QUOTE {
    } else if s[i] == BACKSLASH {
        if i + 1 < s.len() && is_escape(s[i + 1]) {
            lemma_string_rest_end_bounds(s, i + 2);
        } else {
            lemma_string_rest_end_bounds(s, i + 6);
        }
    } else {
        lemma_string_rest_end_bounds(s, i + 1);
    }
}

/// A number ends after where it starts, inside the text.
pub proof fn lemma_number_end_bounds(s: Seq<u8>, i: int)
    requires
        number_end(s, i) is Some,
    ensures
        i < number_end(s, i).unwrap() <= s.len(),
{
    let a = if 0 <= i < s.len() && s[i] == MINUS {
        i + 1
    } else {
        i
    };
    lemma_digits_end_bounds(s, a);
    let b = if s[a] == DIGIT_0 {
        a + 1
    } else {
        digits_end(s, a)
    };
    if b + 1 <= s.len() {
        lemma_digits_end_bounds(s, b + 1);
    }
    let c = fraction_end(s, b).unwrap();
    if c + 1 <= s.len() {
        lemma_digits_end_bounds(s, c + 1);
    }
    if c + 2 <= s.len() {
        lemma_digits_end_bounds(s, c + 2);
    }
}

/// A value ends after where it starts, inside the text. So does an array
/// read from one of its elements on, and an object read from one of its
/// members on: the checks by which their definitions make sure of going
/// forward never turn a well-formed value down.
pub proof fn lemma_value_end_bounds(s: Seq<u8>, i: int, depth: nat)
    ensures
        value_end(s, i, depth) matches Some(e) ==> 0 <= i < e <= s.len(),
        elements_end(s, i, depth) matches Some(e) ==> 0 <= i < e <= s.len(),
        member_end(s, i, depth) matches Some(e) ==> 0 <= i < e <= s.len(),
        members_end(s, i, depth) matches Some(e) ==> 0 <= i < e <= s.len(),
    decreases depth, s.len() - i,
{
    if 0 <= i < s.len() {
        if value_end(s, i, depth) is Some {
            if s[i] == QUOTE {
                lemma_string_rest_end_bounds(s, i + 1);
            } else if s[i] == OPEN_BRACKET || s[i] == OPEN_BRACE {
                lemma_space_end_bounds(s, i + 1);
                lemma_value_end_bounds(s, space_end(s, i + 1), (depth - 1) as nat);
            } else if s[i] == LOWER_T || s[i] == LOWER_F || s[i] == LOWER_N {
            } else {
                lemma_number_end_bounds(s, i);
            }
        }
        if elements_end(s, i, depth) matches Some(e) {
            let j = value_end(s, i, depth).unwrap();
            lemma_space_end_bounds(s, j);
            let k = space_end(s, j);
            if s[k] == COMMA {
                lemma_value_end_bounds(s, space_end(s, k + 1), depth);
            }
        }
        if member_end(s, i, depth) is Some {
            lemma_string_rest_end_bounds(s, i + 1);
            let j = string_end(s, i).unwrap();
            lemma_space_end_bounds(s, j);
            let k = space_end(s, j);
            lemma_space_end_bounds(s, k + 1);
            let v = space_end(s, k + 1);
            lemma_value_end_bounds_at(s, v, depth);
        }
        if members_end(s, i, depth) matches Some(e) {
            lemma_string_rest_end_bounds(s, i + 1);
            let q = string_end(s, i).unwrap();
            lemma_space_end_bounds(s, q);
            let c = space_end(s, q);
            lemma_space_end_bounds(s, c + 1);
            lemma_value_end_bounds_at(s, space_end(s, c + 1), depth);
            let j = member_end(s, i, depth).unwrap();
            lemma_space_end_bounds(s, j);
            let k = space_end(s, j);
            if s[k] == COMMA {
                lemma_value_end_bounds(s, space_end(s, k + 1), depth);
            }
        }
    }
}

/// A value ends after where it starts, inside the text.
proof fn lemma_value_end_bounds_at(s: Seq<u8>, i: int, depth: nat)
    ensures
        value_end(s, i, depth) matches Some(e) ==> 0 <= i < e <= s.len(),
    decreases depth, s.len() - i,
{
    if 0 <= i < s.len() && value_end(s, i, depth) is Some {
        if s[i] == QUOTE {
            lemma_string_rest_end_bounds(s, i + 1);
        } else if s[i] == OPEN_BRACKET || s[i] == OPEN_BRACE {
            lemma_space_end_bounds(s, i + 1);
            lemma_value_end_bounds(s, space_end(s, i + 1), (depth - 1) as nat);
        } else if s[i] == LOWER_T || s[i] == LOWER_F || s[i] == LOWER_N {
        } else {
            lemma_number_end_bounds(s, i);
        }
    }
}

/// True when `found` is the position that `wanted` names, or both name none.
pub open spec fn agrees(found: Option<usize>, wanted: Option<int>) -> bool {
    match found {
        Some(e) => wanted == Some(e as int),
        None => wanted is None,
    }
}

/// Decides `is_space`.
pub fn space(b: u8) -> (r: bool)
    ensures
        r == is_space(b),
{
    b == SPACE || b == TAB || b == LINE_FEED || b == CARRIAGE_RETURN
}

/// Decides `is_digit`.
pub fn digit(b: u8) -> (r: bool)
    ensures
        r == is_digit(b),
{
    DIGIT_0 <= b && b <= DIGIT_9
}

/// Decides `is_hex`.
pub fn hex(b: u8) -> (r: bool)
    ensures
        r == is_hex(b),
{
    digit(b) || (LOWER_A <= b && b <= LOWER_F) || (UPPER_A <= b && b <= UPPER_F)
}

/// Decides `is_escape`.
pub fn escape(b: u8) -> (r: bool)
    ensures
        r == is_escape(b),
{
    b == QUOTE || b == BACKSLASH || b == SLASH || b == LOWER_B || b == LOWER_F || b == LOWER_N || b
        == LOWER_R || b == LOWER_T
}

/// Skips the spaces at `i`.
pub fn skip_spaces(s: &[u8], i: usize) -> (r: usize)
    requires
        i <= s@.len(),
    ensures
        r == space_end(s@, i as int),
        i <= r <= s@.len(),
        r < s@.len() ==> !is_space(s@[r as int]),
{
    let mut j = i;
    while j < s.len() && space(s[j])
        invariant
            i <= j <= s@.len(),
            space_end(s@, i as int) == space_end(s@, j as int),
        decreases s@.len() - j,
    {
        j += 1;
    }
    j
}

/// Skips the digits at `i`.
pub fn skip_digits(s: &[u8], i: usize) -> (r: usize)
    requires
        i <= s@.len(),
    ensures
        r == digits_end(s@, i as int),
        i <= r <= s@.len(),
        i < s@.len() && is_digit(s@[i as int]) ==> i < r,
{
    let mut j = i;
    while j < s.len() && digit(s[j])
        invariant
            i <= j <= s@.len(),
            digits_end(s@, i as int) == digits_end(s@, j as int),
        decreases s@.len() - j,
    {
        j += 1;
    }
    j
}

/// Finds the end of the string that opens at `i`.
pub fn scan_string(s: &[u8], i: usize) -> (r: Option<usize>)
    ensures
        agrees(r, string_end(s@, i as int)),
        r matches Some(e) ==> i + 2 <= e <= s@.len(),
{
    if i >= s.len() || s[i] != QUOTE {
        return None;
    }
    let mut j = i + 1;
    loop
        invariant
            i < j <= s@.len(),
            string_end(s@, i as int) == string_rest_end(s@, j as int),
        decreases s@.len() - j,
    {
        if j >= s.len() {
            return None;
        }
        let b = s[j];
        if b == QUOTE {
            return Some(j + 1);
        } else if b == BACKSLASH {
            if j + 1 < s.len() && escape(s[j + 1]) {
                j += 2;
            } else if s.len() - j > 5 && s[j + 1] == LOWER_U && hex(s[j + 2]) && hex(s[j + 3])
                && hex(s[j + 4]) && hex(s[j + 5]) {
                j += 6;
            } else {
                return None;
            }
        } else if b < 0x20 {
            return None;
        } else {
            j += 1;
        }
    }
}

/// Finds the end of the number that starts at `i`.
pub fn scan_number(s: &[u8], i: usize) -> (r: Option<usize>)
    ensures
        agrees(r, number_end(s@, i as int)),
        r matches Some(e) ==> i < e <= s@.len(),
{
    let n = s.len();
    let a = if i < n && s[i] == MINUS {
        i + 1
    } else {
        i
    };
    if a >= n || !digit(s[a]) {
        return None;
    }
    let b = if s[a] == DIGIT_0 {
        a + 1
    } else {
        skip_digits(s, a)
    };
    let c = if b < n && s[b] == DOT {
        if b + 1 < n && digit(s[b + 1]) {
            skip_digits(s, b + 1)
        } else {
            return None;
        }
    } else {
        b
    };
    if c < n && (s[c] == LOWER_E || s[c] == UPPER_E) {
        let j = if c + 1 < n && (s[c + 1] == PLUS || s[c + 1] == MINUS) {
            c + 2
        } else {
            c + 1
        };
        if j < n && digit(s[j]) {
            Some(skip_digits(s, j))
        } else {
            None
        }
    } else {
        Some(c)
    }
}

/// Decides whether `word` stands in `s` at `i`.
pub fn starts_with(s: &[u8], i: usize, word: &[u8]) -> (r: bool)
    requires
        i <= s@.len(),
    ensures
        r == has_word(s@, i as int, word@),
{
    let n = word.len();
    if n > s.len() - i {
        return false;
    }
    let mut k: usize = 0;
    while k < n
        invariant
            0 <= k <= n,
            n == word@.len(),
            i + n <= s@.len() <= usize::MAX,
            forall|t: int| 0 <= t < k ==> s@[i + t] == word@[t],
        decreases n - k,
    {
        if s[i + k] != word[k] {
            assert(s@.subrange(i as int, i + n)[k as int] != word@[k as int]);
            return false;
        }
        k += 1;
    }
    assert(s@.subrange(i as int, i + n) =~= word@);
    true
}

/// Decides whether the string that opens at `i` and ends before `j` holds
/// exactly the bytes of `word` between its quotes.
pub fn string_is(s: &[u8], i: usize, j: usize, word: &[u8]) -> (r: bool)
    requires
        i + 2 <= j <= s@.len(),
    ensures
        r == (s@.subrange(i + 1, j - 1) == word@),
{
    if j - i - 2 != word.len() {
        assert(s@.subrange(i + 1, j - 1).len() != word@.len());
        return false;
    }
    starts_with(s, i + 1, word)
}

/// Finds the end of the value that starts at `i`, allowing arrays and
/// objects to nest `depth` deep.
pub fn skip_value(s: &[u8], i: usize, depth: usize) -> (r: Option<usize>)
    ensures
        agrees(r, value_end(s@, i as int, depth as nat)),
        r matches Some(e) ==> i < e <= s@.len(),
    decreases depth, s@.len() - i, 0nat,
{
    if i >= s.len() {
        return None;
    }
    let b = s[i];
    if b == QUOTE {
        scan_string(s, i)
    } else if b == OPEN_BRACKET {
        if depth == 0 {
            return None;
        }
        let j = skip_spaces(s, i + 1);
        if j < s.len() && s[j] == CLOSE_BRACKET {
            Some(j + 1)
        } else {
            skip_elements(s, j, depth - 1)
        }
    } else if b == OPEN_BRACE {
        if depth == 0 {
            return None;
        }
        let j = skip_spaces(s, i + 1);
        if j < s.len() && s[j] == CLOSE_BRACE {
            Some(j + 1)
        } else {
            skip_members(s, j, depth - 1)
        }
    } else if b == LOWER_T {
        let word: [u8; 4] = [LOWER_T, LOWER_R, LOWER_U, LOWER_E];
        assert(word@ =~= word_true());
        if starts_with(s, i, word.as_slice()) {
            Some(i + 4)
        } else {
            None
        }
    } else if b == LOWER_F {
        let word: [u8; 5] = [LOWER_F, LOWER_A, LOWER_L, LOWER_S, LOWER_E];
        assert(word@ =~= word_false());
        if starts_with(s, i, word.as_slice()) {
            Some(i + 5)
        } else {
            None
        }
    } else if b == LOWER_N {
        let word: [u8; 4] = [LOWER_N, LOWER_U, LOWER_L, LOWER_L];
        assert(word@ =~= word_null());
        if starts_with(s, i, word.as_slice()) {
            Some(i + 4)
        } else {
            None
        }
    } else {
        scan_number(s, i)
    }
}

/// Finds the end of the array of which an element starts at `i`.
pub fn skip_elements(s: &[u8], i: usize, depth: usize) -> (r: Option<usize>)
    requires
        i <= s@.len(),
    ensures
        agrees(r, elements_end(s@, i as int, depth as nat)),
        r matches Some(e) ==> i < e <= s@.len(),
    decreases depth, s@.len() - i, 3nat,
{
    let mut at = i;
    loop
        invariant
            i <= at <= s@.len(),
            elements_end(s@, i as int, depth as nat) == elements_end(s@, at as int, depth as nat),
        decreases s@.len() - at,
    {
        let j = match skip_value(s, at, depth) {
            Some(j) => j,
            None => { return None; },
        };
        let k = skip_spaces(s, j);
        if k < s.len() && s[k] == CLOSE_BRACKET {
            return Some(k + 1);
        } else if k < s.len() && s[k] == COMMA {
            at = skip_spaces(s, k + 1);
        } else {
            return None;
        }
    }
}

/// Finds the end of the member whose name opens at `i`.
pub fn skip_member(s: &[u8], i: usize, depth: usize) -> (r: Option<usize>)
    ensures
        agrees(r, member_end(s@, i as int, depth as nat)),
        r matches Some(e) ==> i < e <= s@.len(),
    decreases depth, s@.len() - i, 1nat,
{
    let j = match scan_string(s, i) {
        Some(j) => j,
        None => { return None; },
    };
    let k = skip_spaces(s, j);
    if k < s.len() && s[k] == COLON {
        let v = skip_spaces(s, k + 1);
        skip_value(s, v, depth)
    } else {
        None
    }
}

/// Finds the end of the object of which a member starts at `i`.
pub fn skip_members(s: &[u8], i: usize, depth: usize) -> (r: Option<usize>)
    requires
        i <= s@.len(),
    ensures
        agrees(r, members_end(s@, i as int, depth as nat)),
        r matches Some(e) ==> i < e <= s@.len(),
    decreases depth, s@.len() - i, 3nat,
{
    let mut at = i;
    loop
        invariant
            i <= at <= s@.len(),
            members_end(s@, i as int, depth as nat) == members_end(s@, at as int, depth as nat),
        decreases s@.len() - at,
    {
        let j = match skip_member(s, at, depth) {
            Some(j) => j,
            None => { return None; },
        };
        let k = skip_spaces(s, j);
        if k < s.len() && s[k] == CLOSE_BRACE {
            return Some(k + 1);
        } else if k < s.len() && s[k] == COMMA {
            at = skip_spaces(s, k + 1);
        } else {
            return None;
        }
    }
}

} // verus!
