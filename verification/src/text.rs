//! Text as sequences of characters: measures, classes of characters, searches
//! and the few ways in which the library builds strings.

use vstd::prelude::*;
use vstd::slice::*;
use vstd::string::*;
use vstd::utf8::*;

verus! {

/// `String::push` appends one character.
pub assume_specification[ String::push ](text: &mut String, character: char)
    ensures
        final(text)@ == old(text)@.push(character),
;

// ---------------------------------------------------------------------------
// Measures
// ---------------------------------------------------------------------------
/// The number of bytes that a character takes in UTF-8.
pub open spec fn char_bytes(c: char) -> nat {
    if (c as u32) < 0x80 {
        1
    } else if (c as u32) < 0x800 {
        2
    } else if (c as u32) < 0x10000 {
        3
    } else {
        4
    }
}

/// The number of bytes that a text takes in UTF-8.
pub open spec fn byte_len(s: Seq<char>) -> nat
    decreases s.len(),
{
    if s.len() == 0 {
        0
    } else {
        byte_len(s.drop_last()) + char_bytes(s.last())
    }
}

pub proof fn lemma_byte_len_concat(a: Seq<char>, b: Seq<char>)
    ensures
        byte_len(a + b) == byte_len(a) + byte_len(b),
    decreases b.len(),
{
    if b.len() == 0 {
        assert(a + b =~= a);
    } else {
        lemma_byte_len_concat(a, b.drop_last());
        assert((a + b).drop_last() =~= a + b.drop_last());
        assert((a + b).last() == b.last());
    }
}

pub proof fn lemma_byte_len_bounds(s: Seq<char>)
    ensures
        s.len() <= byte_len(s) <= 4 * s.len(),
    decreases s.len(),
{
    if s.len() > 0 {
        lemma_byte_len_bounds(s.drop_last());
    }
}

/// `byte_len` is the length of the UTF-8 encoding.
pub proof fn lemma_byte_len_is_utf8_len(s: Seq<char>)
    ensures
        byte_len(s) == encode_utf8(s).len(),
    decreases s.len(),
{
    if s.len() > 0 {
        let head = s.take(1);
        let tail = s.drop_first();
        assert(s =~= head + tail);
        lemma_byte_len_concat(head, tail);
        assert(head.drop_last() =~= Seq::<char>::empty());
        assert(byte_len(head.drop_last()) == 0);
        assert(byte_len(head) == char_bytes(s[0]));
        lemma_byte_len_is_utf8_len(tail);
        char_is_scalar(s[0]);
        assert(encode_utf8(s) == encode_scalar(s[0] as u32) + encode_utf8(tail));
    }
}

/// The length in bytes of a text, as a number that fits every machine word.
pub fn measured(text: &str) -> (bytes: usize)
    ensures
        bytes == byte_len(text@),
{
    proof {
        lemma_byte_len_is_utf8_len(text@);
    }
    let encoded = text.as_bytes();
    encoded.len()
}

/// The number of bytes that a character takes in UTF-8.
pub fn width(c: char) -> (bytes: usize)
    ensures
        bytes == char_bytes(c),
        1 <= bytes <= 4,
{
    let code: u32 = c as u32;
    if code < 0x80 {
        1
    } else if code < 0x800 {
        2
    } else if code < 0x10000 {
        3
    } else {
        4
    }
}

// ---------------------------------------------------------------------------
// Conversions
// ---------------------------------------------------------------------------
/// The characters of a text.
pub fn chars_of(text: &str) -> (chars: Vec<char>)
    ensures
        chars@ == text@,
{
    let mut chars: Vec<char> = Vec::new();
    for c in iter: text.chars()
        invariant
            chars@ == iter.seq().take(iter.index()),
            iter.seq() == text@,
    {
        chars.push(c);
    }
    proof {
        assert(text@.take(text@.len() as int) =~= text@);
    }
    chars
}

/// The text that consists of the given characters.
pub fn string_of(chars: &[char]) -> (text: String)
    ensures
        text@ == chars@,
{
    let mut text = String::new();
    let mut at: usize = 0;
    while at < chars.len()
        invariant
            at <= chars@.len(),
            text@ == chars@.take(at as int),
        decreases chars.len() - at,
    {
        text.push(chars[at]);
        at = at + 1;
        proof {
            assert(chars@.take(at as int) =~= chars@.take(at - 1).push(chars@[at - 1]));
        }
    }
    proof {
        assert(chars@.take(chars@.len() as int) =~= chars@);
    }
    text
}

/// Whether two texts hold the same characters.
pub fn same_chars(a: &[char], b: &[char]) -> (same: bool)
    ensures
        same == (a@ == b@),
{
    if a.len() != b.len() {
        return false;
    }
    let mut at: usize = 0;
    while at < a.len()
        invariant
            at <= a@.len(),
            a@.len() == b@.len(),
            forall|i: int| 0 <= i < at ==> a@[i] == b@[i],
        decreases a.len() - at,
    {
        if a[at] != b[at] {
            return false;
        }
        at = at + 1;
    }
    proof {
        assert(a@ =~= b@);
    }
    true
}

/// Whether two texts are equal.
pub fn same_text(a: &str, b: &str) -> (same: bool)
    ensures
        same == (a@ == b@),
{
    let left = chars_of(a);
    let right = chars_of(b);
    same_chars(left.as_slice(), right.as_slice())
}

/// Whether the characters spell the given text.
pub fn spells(chars: &[char], word: &str) -> (same: bool)
    ensures
        same == (chars@ == word@),
{
    let right = chars_of(word);
    same_chars(chars, right.as_slice())
}

/// Appends every character of `more`.
pub fn extend(chars: &mut Vec<char>, more: &[char])
    ensures
        final(chars)@ == old(chars)@ + more@,
{
    let mut at: usize = 0;
    while at < more.len()
        invariant
            at <= more@.len(),
            chars@ == old(chars)@ + more@.take(at as int),
        decreases more.len() - at,
    {
        chars.push(more[at]);
        at = at + 1;
        proof {
            assert(more@.take(at as int) =~= more@.take(at - 1).push(more@[at - 1]));
            assert(chars@ =~= old(chars)@ + more@.take(at as int));
        }
    }
    proof {
        assert(more@.take(more@.len() as int) =~= more@);
    }
}

/// A copy of the characters.
pub fn copied(chars: &[char]) -> (copy: Vec<char>)
    ensures
        copy@ == chars@,
{
    let mut copy: Vec<char> = Vec::new();
    extend(&mut copy, chars);
    proof {
        assert(Seq::<char>::empty() + chars@ =~= chars@);
    }
    copy
}

// ---------------------------------------------------------------------------
// Classes of characters
// ---------------------------------------------------------------------------
/// Unicode's control characters.
pub open spec fn is_control(c: char) -> bool {
    (c as u32) < 0x20 || 0x7f <= (c as u32) <= 0x9f
}

/// Unicode's white space.
pub open spec fn is_whitespace(c: char) -> bool {
    let code = c as u32;
    ||| 0x09 <= code <= 0x0d
    ||| code == 0x20
    ||| code == 0x85
    ||| code == 0xa0
    ||| code == 0x1680
    ||| 0x2000 <= code <= 0x200a
    ||| code == 0x2028
    ||| code == 0x2029
    ||| code == 0x202f
    ||| code == 0x205f
    ||| code == 0x3000
}

pub open spec fn is_digit(c: char) -> bool {
    '0' <= c <= '9'
}

pub open spec fn is_upper(c: char) -> bool {
    'A' <= c <= 'Z'
}

pub open spec fn is_lower(c: char) -> bool {
    'a' <= c <= 'z'
}

pub open spec fn is_alphanumeric(c: char) -> bool {
    is_digit(c) || is_upper(c) || is_lower(c)
}

/// The lower-case form of an ASCII letter; every other character as it is.
pub open spec fn lower(c: char) -> char {
    if is_upper(c) {
        ((c as u32) + 32) as char
    } else {
        c
    }
}

/// The upper-case form of an ASCII letter; every other character as it is.
pub open spec fn upper(c: char) -> char {
    if is_lower(c) {
        ((c as u32) - 32) as char
    } else {
        c
    }
}

pub fn control(c: char) -> (yes: bool)
    ensures
        yes == is_control(c),
{
    let code: u32 = c as u32;
    code < 0x20 || (0x7f <= code && code <= 0x9f)
}

pub fn whitespace(c: char) -> (yes: bool)
    ensures
        yes == is_whitespace(c),
{
    let code: u32 = c as u32;
    (0x09 <= code && code <= 0x0d) || code == 0x20 || code == 0x85 || code == 0xa0 || code == 0x1680
        || (0x2000 <= code && code <= 0x200a) || code == 0x2028 || code == 0x2029 || code == 0x202f
        || code == 0x205f || code == 0x3000
}

pub fn digit(c: char) -> (yes: bool)
    ensures
        yes == is_digit(c),
{
    '0' <= c && c <= '9'
}

pub fn alphanumeric(c: char) -> (yes: bool)
    ensures
        yes == is_alphanumeric(c),
{
    ('0' <= c && c <= '9') || ('A' <= c && c <= 'Z') || ('a' <= c && c <= 'z')
}

pub fn to_lower(c: char) -> (r: char)
    ensures
        r == lower(c),
{
    if 'A' <= c && c <= 'Z' {
        let code: u8 = c as u8;
        (code + 32) as char
    } else {
        c
    }
}

pub fn to_upper(c: char) -> (r: char)
    ensures
        r == upper(c),
{
    if 'a' <= c && c <= 'z' {
        let code: u8 = c as u8;
        (code - 32) as char
    } else {
        c
    }
}

/// The text with every ASCII letter in lower case.
pub open spec fn lowered(s: Seq<char>) -> Seq<char> {
    Seq::new(s.len(), |i: int| lower(s[i]))
}

pub fn to_lowered(s: &[char]) -> (r: Vec<char>)
    ensures
        r@ == lowered(s@),
{
    let mut r: Vec<char> = Vec::new();
    let mut at: usize = 0;
    while at < s.len()
        invariant
            at <= s@.len(),
            r@ == lowered(s@).take(at as int),
        decreases s.len() - at,
    {
        r.push(to_lower(s[at]));
        at = at + 1;
        proof {
            assert(lowered(s@).take(at as int) =~= lowered(s@).take(at - 1).push(lower(s@[at - 1])));
        }
    }
    proof {
        assert(lowered(s@).take(s@.len() as int) =~= lowered(s@));
    }
    r
}

// ---------------------------------------------------------------------------
// Searches
// ---------------------------------------------------------------------------
/// `part` stands in `s` from position `at` on.
pub open spec fn stands_at(s: Seq<char>, part: Seq<char>, at: int) -> bool {
    0 <= at && at + part.len() <= s.len() && s.subrange(at, at + part.len()) == part
}

pub open spec fn begins_with(s: Seq<char>, part: Seq<char>) -> bool {
    stands_at(s, part, 0)
}

pub open spec fn ends_with(s: Seq<char>, part: Seq<char>) -> bool {
    stands_at(s, part, s.len() - part.len())
}

pub open spec fn contains_text(s: Seq<char>, part: Seq<char>) -> bool {
    exists|at: int| #[trigger] stands_at(s, part, at)
}

/// The position of the first occurrence of `c`, or the length of the text.
pub open spec fn first_of(s: Seq<char>, c: char) -> int
    decreases s.len(),
{
    if s.len() == 0 || s[0] == c {
        0
    } else {
        1 + first_of(s.drop_first(), c)
    }
}

pub proof fn lemma_first_of(s: Seq<char>, c: char, at: int)
    requires
        0 <= at <= s.len(),
        forall|i: int| 0 <= i < at ==> s[i] != c,
        at < s.len() ==> s[at] == c,
    ensures
        first_of(s, c) == at,
    decreases s.len(),
{
    if s.len() > 0 && s[0] != c {
        assert(at > 0);
        let rest = s.drop_first();
        assert forall|i: int| 0 <= i < at - 1 implies rest[i] != c by {
            assert(rest[i] == s[i + 1]);
        }
        lemma_first_of(rest, c, at - 1);
    }
}

pub fn matches_at(s: &[char], part: &[char], at: usize) -> (yes: bool)
    ensures
        yes == stands_at(s@, part@, at as int),
{
    if at > s.len() || part.len() > s.len() - at {
        return false;
    }
    let mut i: usize = 0;
    while i < part.len()
        invariant
            i <= part@.len(),
            at + part@.len() <= s.len(),
            s.len() == s@.len(),
            forall|k: int| 0 <= k < i ==> s@[at + k] == part@[k],
        decreases part.len() - i,
    {
        if s[at + i] != part[i] {
            proof {
                assert(s@.subrange(at as int, at + part@.len())[i as int] == s@[at + i]);
            }
            return false;
        }
        i = i + 1;
    }
    proof {
        assert(s@.subrange(at as int, at + part@.len()) =~= part@);
    }
    true
}

pub fn starts(s: &[char], part: &str) -> (yes: bool)
    ensures
        yes == begins_with(s@, part@),
{
    let word = chars_of(part);
    matches_at(s, word.as_slice(), 0)
}

pub fn ends(s: &[char], part: &str) -> (yes: bool)
    ensures
        yes == ends_with(s@, part@),
{
    let word = chars_of(part);
    if word.len() > s.len() {
        return false;
    }
    matches_at(s, word.as_slice(), s.len() - word.len())
}

pub fn has(s: &[char], part: &str) -> (yes: bool)
    ensures
        yes == contains_text(s@, part@),
{
    let word = chars_of(part);
    let mut at: usize = 0;
    while at < s.len()
        invariant
            at <= s@.len(),
            word@ == part@,
            forall|k: int| 0 <= k < at ==> !#[trigger] stands_at(s@, part@, k),
        decreases s.len() - at,
    {
        if matches_at(s, word.as_slice(), at) {
            return true;
        }
        at = at + 1;
    }
    let yes = matches_at(s, word.as_slice(), s.len());
    proof {
        if !yes {
            assert forall|k: int| !#[trigger] stands_at(s@, part@, k) by {}
        }
    }
    yes
}

pub fn has_char(s: &[char], c: char) -> (yes: bool)
    ensures
        yes == s@.contains(c),
{
    let mut at: usize = 0;
    while at < s.len()
        invariant
            at <= s@.len(),
            forall|k: int| 0 <= k < at ==> s@[k] != c,
        decreases s.len() - at,
    {
        if s[at] == c {
            return true;
        }
        at = at + 1;
    }
    false
}

/// The position of the first `c`, or the length of the text.
pub fn find_char(s: &[char], c: char) -> (at: usize)
    ensures
        at == first_of(s@, c),
        at <= s@.len(),
        at < s@.len() ==> s@[at as int] == c,
        forall|k: int| 0 <= k < at ==> s@[k] != c,
{
    let mut at: usize = 0;
    while at < s.len()
        invariant
            at <= s@.len(),
            forall|k: int| 0 <= k < at ==> s@[k] != c,
        decreases s.len() - at,
    {
        if s[at] == c {
            proof {
                lemma_first_of(s@, c, at as int);
            }
            return at;
        }
        at = at + 1;
    }
    proof {
        lemma_first_of(s@, c, at as int);
    }
    at
}

// ---------------------------------------------------------------------------
// Trimming
// ---------------------------------------------------------------------------
/// The text without the white space at its start.
pub open spec fn trimmed_start(s: Seq<char>) -> Seq<char>
    decreases s.len(),
{
    if s.len() > 0 && is_whitespace(s[0]) {
        trimmed_start(s.drop_first())
    } else {
        s
    }
}

/// The text without the white space at its end.
pub open spec fn trimmed_end(s: Seq<char>) -> Seq<char>
    decreases s.len(),
{
    if s.len() > 0 && is_whitespace(s.last()) {
        trimmed_end(s.drop_last())
    } else {
        s
    }
}

/// The text without the white space at both ends.
pub open spec fn trimmed(s: Seq<char>) -> Seq<char> {
    trimmed_end(trimmed_start(s))
}

/// Removes the white space at both ends.
pub fn trim(s: &[char]) -> (r: Vec<char>)
    ensures
        r@ == trimmed(s@),
{
    let mut from: usize = 0;
    proof {
        assert(s@.skip(0) =~= s@);
    }
    while from < s.len() && whitespace(s[from])
        invariant
            from <= s@.len(),
            trimmed_start(s@) == trimmed_start(s@.skip(from as int)),
        decreases s.len() - from,
    {
        proof {
            assert(s@.skip(from as int).drop_first() =~= s@.skip(from + 1));
        }
        from = from + 1;
    }
    let mut to: usize = s.len();
    proof {
        assert(s@.subrange(from as int, to as int) =~= s@.skip(from as int));
        if from < s@.len() {
            assert(s@.skip(from as int)[0] == s@[from as int]);
        }
        assert(trimmed_start(s@) == s@.subrange(from as int, to as int));
    }
    while to > from && whitespace(s[to - 1])
        invariant
            from <= to <= s@.len(),
            trimmed(s@) == trimmed_end(s@.subrange(from as int, to as int)),
        decreases to,
    {
        proof {
            assert(s@.subrange(from as int, to as int).drop_last() =~= s@.subrange(
                from as int,
                to - 1,
            ));
        }
        to = to - 1;
    }
    proof {
        if from < to {
            assert(s@.subrange(from as int, to as int).last() == s@[to - 1]);
        }
    }
    copied(slice_subrange(s, from, to))
}

// ---------------------------------------------------------------------------
// Joining and numbers
// ---------------------------------------------------------------------------
/// The parts one after the other, with `separator` between two neighbours.
pub open spec fn joined(parts: Seq<Seq<char>>, separator: Seq<char>) -> Seq<char>
    decreases parts.len(),
{
    if parts.len() == 0 {
        Seq::empty()
    } else if parts.len() == 1 {
        parts[0]
    } else {
        joined(parts.drop_last(), separator) + separator + parts.last()
    }
}

/// The views of a list of character vectors.
pub open spec fn views(parts: Seq<Vec<char>>) -> Seq<Seq<char>> {
    Seq::new(parts.len(), |i: int| parts[i]@)
}

pub fn join(parts: &Vec<Vec<char>>, separator: &str) -> (r: Vec<char>)
    ensures
        r@ == joined(views(parts@), separator@),
{
    let between = chars_of(separator);
    let mut r: Vec<char> = Vec::new();
    let mut at: usize = 0;
    while at < parts.len()
        invariant
            at <= parts@.len(),
            between@ == separator@,
            r@ == joined(views(parts@).take(at as int), separator@),
        decreases parts.len() - at,
    {
        proof {
            let all = views(parts@);
            assert(all.take(at + 1).drop_last() =~= all.take(at as int));
            assert(all.take(at + 1).last() == parts@[at as int]@);
        }
        if at > 0 {
            extend(&mut r, between.as_slice());
            extend(&mut r, parts[at].as_slice());
        } else {
            extend(&mut r, parts[at].as_slice());
            proof {
                assert(r@ =~= parts@[0]@);
            }
        }
        at = at + 1;
    }
    proof {
        assert(views(parts@).take(parts@.len() as int) =~= views(parts@));
    }
    r
}

pub open spec fn digit_char(d: int) -> char {
    (48 + d) as char
}

/// The decimal digits of a natural number.
pub open spec fn digits_of(n: nat) -> Seq<char>
    decreases n,
{
    if n < 10 {
        seq![digit_char(n as int)]
    } else {
        digits_of(n / 10).push(digit_char((n % 10) as int))
    }
}

/// The decimal form of an integer.
pub open spec fn decimal(n: int) -> Seq<char> {
    if n < 0 {
        seq!['-'] + digits_of((-n) as nat)
    } else {
        digits_of(n as nat)
    }
}

pub fn decimal_digits(n: u64) -> (r: Vec<char>)
    ensures
        r@ == digits_of(n as nat),
    decreases n,
{
    let low: u8 = (n % 10) as u8;
    let last: char = (48u8 + low) as char;
    if n < 10 {
        let mut r: Vec<char> = Vec::new();
        r.push(last);
        proof {
            assert(r@ =~= digits_of(n as nat));
        }
        r
    } else {
        let mut r = decimal_digits(n / 10);
        r.push(last);
        r
    }
}

pub fn decimal_chars(n: i64) -> (r: Vec<char>)
    ensures
        r@ == decimal(n as int),
{
    if n < 0 {
        let magnitude: u64 = (0i128 - n as i128) as u64;
        let digits = decimal_digits(magnitude);
        let mut r: Vec<char> = Vec::new();
        r.push('-');
        extend(&mut r, digits.as_slice());
        proof {
            assert(r@ =~= decimal(n as int));
        }
        r
    } else {
        decimal_digits(n as u64)
    }
}

// ---------------------------------------------------------------------------
// Limits
// ---------------------------------------------------------------------------
/// How many characters from the start of the text fit into so many bytes.
pub open spec fn fit_count(s: Seq<char>, limit: int) -> nat
    decreases s.len(),
{
    if s.len() == 0 || char_bytes(s[0]) > limit {
        0
    } else {
        1 + fit_count(s.drop_first(), limit - char_bytes(s[0]))
    }
}

/// The longest start of the text that fits into so many bytes.
pub open spec fn fitting(s: Seq<char>, limit: int) -> Seq<char> {
    s.take(fit_count(s, limit) as int)
}

/// What fits is within the limit, and one character more would not be.
pub proof fn lemma_fitting(s: Seq<char>, limit: int)
    ensures
        fit_count(s, limit) <= s.len(),
        limit >= 0 ==> byte_len(fitting(s, limit)) <= limit,
        fit_count(s, limit) < s.len() ==> byte_len(s.take((fit_count(s, limit) + 1) as int)) > limit,
    decreases s.len(),
{
    if s.len() == 0 {
        assert(fitting(s, limit) =~= Seq::<char>::empty());
    } else {
        let head = s.take(1);
        assert(head.drop_last() =~= Seq::<char>::empty());
        assert(byte_len(head.drop_last()) == 0);
        assert(byte_len(head) == char_bytes(s[0]));
        if char_bytes(s[0]) > limit {
            assert(fitting(s, limit) =~= Seq::<char>::empty());
        } else {
            let rest = s.drop_first();
            let left = limit - char_bytes(s[0]);
            lemma_fitting(rest, left);
            let n = fit_count(rest, left) as int;
            assert(s.take(n + 1) =~= head + rest.take(n));
            lemma_byte_len_concat(head, rest.take(n));
            if n < rest.len() {
                assert(s.take(n + 2) =~= head + rest.take(n + 1));
                lemma_byte_len_concat(head, rest.take(n + 1));
            }
        }
    }
}

/// The longest start of the text that fits into so many bytes.
pub fn fit(s: &[char], limit: usize) -> (r: Vec<char>)
    ensures
        r@ == fitting(s@, limit as int),
{
    let mut r: Vec<char> = Vec::new();
    let mut left: usize = limit;
    let mut at: usize = 0;
    proof {
        assert(s@.skip(0) =~= s@);
        assert(r@ =~= s@.take(0));
    }
    while at < s.len() && width(s[at]) <= left
        invariant
            at <= s@.len(),
            r@ == s@.take(at as int),
            fit_count(s@, limit as int) == at + fit_count(s@.skip(at as int), left as int),
        decreases s.len() - at,
    {
        proof {
            assert(s@.skip(at as int).drop_first() =~= s@.skip(at + 1));
            assert(s@.skip(at as int)[0] == s@[at as int]);
            assert(s@.take(at + 1) =~= s@.take(at as int).push(s@[at as int]));
        }
        left = left - width(s[at]);
        r.push(s[at]);
        at = at + 1;
    }
    proof {
        if at < s@.len() {
            assert(s@.skip(at as int)[0] == s@[at as int]);
        }
    }
    r
}

/// Two texts one after the other.
pub fn concat2(a: &str, b: &str) -> (r: Vec<char>)
    ensures
        r@ == a@ + b@,
{
    let mut r = chars_of(a);
    let more = chars_of(b);
    extend(&mut r, more.as_slice());
    r
}

/// Appends a text.
pub fn append_text(chars: &mut Vec<char>, text: &str)
    ensures
        final(chars)@ == old(chars)@ + text@,
{
    let more = chars_of(text);
    extend(chars, more.as_slice());
}

/// Appends an integer in decimal.
pub fn append_int(chars: &mut Vec<char>, n: i64)
    ensures
        final(chars)@ == old(chars)@ + decimal(n as int),
{
    let more = decimal_chars(n);
    extend(chars, more.as_slice());
}

/// The parts one after the other.
pub open spec fn flat(parts: Seq<Seq<char>>) -> Seq<char>
    decreases parts.len(),
{
    if parts.len() == 0 {
        Seq::empty()
    } else {
        flat(parts.drop_last()) + parts.last()
    }
}

/// A text of ASCII characters has as many bytes as characters.
pub proof fn lemma_ascii_len(s: Seq<char>)
    requires
        forall|i: int| 0 <= i < s.len() ==> (#[trigger] s[i] as u32) < 0x80,
    ensures
        byte_len(s) == s.len(),
    decreases s.len(),
{
    if s.len() > 0 {
        lemma_ascii_len(s.drop_last());
    }
}

// ---------------------------------------------------------------------------
// Order
// ---------------------------------------------------------------------------
/// The order of texts by their first different character. The UTF-8 forms of
/// the texts are in the same order.
pub open spec fn text_less(a: Seq<char>, b: Seq<char>) -> bool
    decreases a.len(),
{
    if b.len() == 0 {
        false
    } else if a.len() == 0 {
        true
    } else if a[0] != b[0] {
        (a[0] as u32) < (b[0] as u32)
    } else {
        text_less(a.drop_first(), b.drop_first())
    }
}

/// Whether a text comes before another.
pub fn comes_before(a: &[char], b: &[char]) -> (yes: bool)
    ensures
        yes == text_less(a@, b@),
{
    let mut at: usize = 0;
    proof {
        assert(a@.skip(0) =~= a@);
        assert(b@.skip(0) =~= b@);
    }
    while at < a.len() && at < b.len() && a[at] == b[at]
        invariant
            at <= a@.len(),
            at <= b@.len(),
            text_less(a@, b@) == text_less(a@.skip(at as int), b@.skip(at as int)),
        decreases a.len() - at,
    {
        proof {
            assert(a@.skip(at as int).drop_first() =~= a@.skip(at + 1));
            assert(b@.skip(at as int).drop_first() =~= b@.skip(at + 1));
            assert(a@.skip(at as int)[0] == a@[at as int]);
            assert(b@.skip(at as int)[0] == b@[at as int]);
        }
        at = at + 1;
    }
    proof {
        if at < a@.len() {
            assert(a@.skip(at as int)[0] == a@[at as int]);
        }
        if at < b@.len() {
            assert(b@.skip(at as int)[0] == b@[at as int]);
        }
    }
    if at == b.len() {
        false
    } else if at == a.len() {
        true
    } else {
        (a[at] as u32) < (b[at] as u32)
    }
}

pub proof fn lemma_text_less_irreflexive(a: Seq<char>)
    ensures
        !text_less(a, a),
    decreases a.len(),
{
    if a.len() > 0 {
        lemma_text_less_irreflexive(a.drop_first());
    }
}

pub proof fn lemma_text_less_transitive(a: Seq<char>, b: Seq<char>, c: Seq<char>)
    requires
        text_less(a, b),
        text_less(b, c),
    ensures
        text_less(a, c),
    decreases a.len(),
{
    if a.len() > 0 && b.len() > 0 && c.len() > 0 && a[0] == b[0] && b[0] == c[0] {
        lemma_text_less_transitive(a.drop_first(), b.drop_first(), c.drop_first());
    }
}

proof fn lemma_codes_differ(x: char, y: char)
    requires
        x != y,
    ensures
        x as u32 != y as u32,
{
}

/// Of two different texts one comes before the other.
pub proof fn lemma_text_less_total(a: Seq<char>, b: Seq<char>)
    ensures
        text_less(a, b) || text_less(b, a) || a == b,
    decreases a.len(),
{
    if a.len() == 0 || b.len() == 0 {
        assert(a.len() == 0 && b.len() == 0 ==> a =~= b);
    } else if a[0] == b[0] {
        lemma_text_less_total(a.drop_first(), b.drop_first());
        if a.drop_first() == b.drop_first() {
            assert(a =~= seq![a[0]] + a.drop_first());
            assert(b =~= seq![b[0]] + b.drop_first());
        }
    } else {
        lemma_codes_differ(a[0], b[0]);
    }
}

// ---------------------------------------------------------------------------
// Parts and numbers of a text
// ---------------------------------------------------------------------------
/// The parts of a text between the occurrences of a character.
pub open spec fn parts_of(s: Seq<char>, c: char) -> Seq<Seq<char>>
    decreases s.len(),
{
    let at = first_of(s, c);
    if 0 <= at < s.len() {
        seq![s.take(at)] + parts_of(s.skip(at + 1), c)
    } else {
        seq![s]
    }
}

/// The parts of a text between the occurrences of a character.
pub fn split_at(s: &[char], c: char) -> (parts: Vec<Vec<char>>)
    ensures
        views(parts@) == parts_of(s@, c),
        parts@.len() > 0,
{
    let mut parts: Vec<Vec<char>> = Vec::new();
    let mut from: usize = 0;
    let mut done = false;
    proof {
        assert(s@.skip(0) =~= s@);
        assert(views(parts@) + parts_of(s@, c) =~= parts_of(s@, c));
    }
    while !done
        invariant
            from <= s@.len(),
            s.len() == s@.len(),
            !done ==> parts_of(s@, c) == views(parts@) + parts_of(s@.skip(from as int), c),
            done ==> parts_of(s@, c) == views(parts@) && parts@.len() > 0,
        decreases s@.len() - from, !done as int,
    {
        let rest = slice_subrange(s, from, s.len());
        let ghost tail = s@.skip(from as int);
        proof {
            assert(rest@ =~= tail);
        }
        let at = find_char(rest, c);
        let part = copied(slice_subrange(rest, 0, at));
        let ghost before = parts@;
        proof {
            assert(part@ =~= tail.take(at as int));
        }
        let more = at < rest.len();
        parts.push(part);
        proof {
            assert(views(parts@) =~= views(before).push(part@));
            if more {
                assert(tail.skip(at + 1) =~= s@.skip(from + at + 1));
                assert(views(before) + parts_of(tail, c) =~= views(parts@) + parts_of(
                    s@.skip(from + at + 1),
                    c,
                ));
            } else {
                assert(tail.take(at as int) =~= tail);
                assert(views(before) + parts_of(tail, c) =~= views(parts@));
            }
        }
        if more {
            from = from + at + 1;
        } else {
            done = true;
        }
    }
    parts
}

/// The number that decimal digits stand for.
pub open spec fn digits_value(s: Seq<char>) -> int
    decreases s.len(),
{
    if s.len() == 0 {
        0
    } else {
        10 * digits_value(s.drop_last()) + (s.last() as int - 48)
    }
}

pub open spec fn all_digits(s: Seq<char>) -> bool {
    forall|i: int| 0 <= i < s.len() ==> is_digit(#[trigger] s[i])
}

/// The integer of 64 bits that a text stands for: digits, with a sign before
/// them or without.
pub open spec fn parsed_int(s: Seq<char>) -> Option<int> {
    let negative = s.len() > 0 && s[0] == '-';
    let digits = if s.len() > 0 && (s[0] == '-' || s[0] == '+') {
        s.drop_first()
    } else {
        s
    };
    let value = if negative {
        -digits_value(digits)
    } else {
        digits_value(digits)
    };
    if digits.len() > 0 && all_digits(digits) && i64::MIN <= value <= i64::MAX {
        Some(value)
    } else {
        None
    }
}

pub proof fn lemma_digits_value_bounds(s: Seq<char>)
    requires
        all_digits(s),
    ensures
        digits_value(s) >= 0,
        s.len() > 0 ==> digits_value(s) >= digits_value(s.drop_last()),
    decreases s.len(),
{
    if s.len() > 0 {
        let head = s.drop_last();
        assert(is_digit(s.last()));
        assert forall|i: int| 0 <= i < head.len() implies is_digit(#[trigger] head[i]) by {
            assert(head[i] == s[i]);
        }
        lemma_digits_value_bounds(head);
    }
}

/// Reads an integer of 64 bits.
pub fn parse_int(s: &[char]) -> (n: Option<i64>)
    ensures
        match n {
            Some(v) => parsed_int(s@) == Some(v as int),
            None => parsed_int(s@) is None,
        },
{
    let signed = s.len() > 0 && (s[0] == '-' || s[0] == '+');
    let negative = s.len() > 0 && s[0] == '-';
    let from: usize = if signed {
        1
    } else {
        0
    };
    let ghost digits = s@.skip(from as int);
    proof {
        if signed {
            assert(s@.drop_first() =~= digits);
        } else {
            assert(digits =~= s@);
        }
        assert(digits.take(0) =~= Seq::<char>::empty());
    }
    if from == s.len() {
        return None;
    }
    let mut value: i128 = 0;
    let mut too_big = false;
    let mut at: usize = from;
    while at < s.len()
        invariant
            from <= at <= s@.len(),
            digits == s@.skip(from as int),
            digits == (if s@.len() > 0 && (s@[0] == '-' || s@[0] == '+') {
                s@.drop_first()
            } else {
                s@
            }),
            s.len() == s@.len(),
            forall|i: int| 0 <= i < at - from ==> is_digit(#[trigger] digits[i]),
            0 <= value <= 0x8000_0000_0000_0000i128,
            !too_big ==> value == digits_value(digits.take(at - from)),
            too_big ==> digits_value(digits.take(at - from)) > 0x8000_0000_0000_0000int,
        decreases s.len() - at,
    {
        let c: char = s[at];
        proof {
            assert(digits[at - from] == c);
        }
        if !digit(c) {
            proof {
                assert(!is_digit(digits[at - from]));
                assert(!all_digits(digits));
            }
            return None;
        }
        proof {
            assert(digits.take(at - from + 1).drop_last() =~= digits.take(at - from));
            assert(digits.take(at - from + 1).last() == c);
            let head = digits.take(at - from);
            assert forall|i: int| 0 <= i < head.len() implies is_digit(#[trigger] head[i]) by {
                assert(head[i] == digits[i]);
            }
            lemma_digits_value_bounds(head);
        }
        if !too_big {
            let more: i128 = value * 10 + (c as u32 as i128 - 48);
            if more > 0x8000_0000_0000_0000i128 {
                too_big = true;
            } else {
                value = more;
            }
        }
        at = at + 1;
    }
    proof {
        assert(digits.take(digits.len() as int) =~= digits);
        assert(all_digits(digits));
    }
    if too_big {
        return None;
    }
    if negative {
        let result: i128 = 0 - value;
        Some(result as i64)
    } else if value <= i64::MAX as i128 {
        Some(value as i64)
    } else {
        None
    }
}

/// The decimal form of an integer is read back as that integer.
pub proof fn lemma_decimal_reads_back(n: int)
    requires
        i64::MIN <= n <= i64::MAX,
    ensures
        parsed_int(decimal(n)) == Some(n),
{
    let magnitude = (if n < 0 { -n } else { n }) as nat;
    lemma_digits_of(magnitude);
    let digits = digits_of(magnitude);
    if n < 0 {
        assert(decimal(n).drop_first() =~= digits);
    } else {
        assert(is_digit(digits[0]));
    }
}

proof fn lemma_digits_of(n: nat)
    ensures
        digits_of(n).len() > 0,
        all_digits(digits_of(n)),
        digits_value(digits_of(n)) == n,
    decreases n,
{
    let s = digits_of(n);
    if n < 10 {
        assert(s.drop_last() =~= Seq::<char>::empty());
        assert(digits_value(s.drop_last()) == 0);
    } else {
        lemma_digits_of(n / 10);
        let head = digits_of(n / 10);
        assert(s.drop_last() =~= head);
        assert forall|i: int| 0 <= i < s.len() implies is_digit(#[trigger] s[i]) by {
            if i < head.len() {
                assert(s[i] == head[i]);
            }
        }
    }
}

// ---------------------------------------------------------------------------
// Lists of texts
// ---------------------------------------------------------------------------
pub open spec fn names_text(texts: Seq<String>, text: Seq<char>) -> bool {
    exists|i: int| 0 <= i < texts.len() && (#[trigger] texts[i])@ == text
}

/// Adds a text to a list, unless it is there.
pub fn note_once(texts: &mut Vec<String>, text: &str)
    ensures
        names_text(old(texts)@, text@) ==> final(texts)@ == old(texts)@,
        !names_text(old(texts)@, text@) ==> final(texts)@.len() == old(texts)@.len() + 1
            && final(texts)@.drop_last() == old(texts)@ && final(texts)@.last()@ == text@,
{
    let ghost before = texts@;
    let mut at: usize = 0;
    while at < texts.len()
        invariant
            at <= texts@.len(),
            texts@ == before,
            forall|i: int| 0 <= i < at ==> (#[trigger] before[i])@ != text@,
        decreases texts.len() - at,
    {
        if same_text(texts[at].as_str(), text) {
            proof {
                assert(before[at as int]@ == text@);
            }
            return;
        }
        at = at + 1;
    }
    texts.push(text.to_owned());
    proof {
        assert(texts@.drop_last() =~= before);
    }
}

/// Letters change their case alone, and no other character changes.
pub proof fn lemma_case_of_characters(c: char)
    ensures
        'A' <= c <= 'Z' ==> lower(c) as u32 == c as u32 + 32,
        !('A' <= c <= 'Z') ==> lower(c) == c,
        'a' <= c <= 'z' ==> upper(c) as u32 == c as u32 - 32,
        !('a' <= c <= 'z') ==> upper(c) == c,
        lower(lower(c)) == lower(c),
        upper(upper(c)) == upper(c),
        lower(upper(c)) == lower(c),
{
}

/// The classes of characters.
pub proof fn lemma_classes_of_characters(c: char)
    ensures
        is_digit(c) <==> 0x30 <= c as u32 <= 0x39,
        is_alphanumeric(c) <==> 0x30 <= c as u32 <= 0x39 || 0x41 <= c as u32 <= 0x5a || 0x61
            <= c as u32 <= 0x7a,
        is_control(c) <==> c as u32 <= 0x1f || 0x7f <= c as u32 <= 0x9f,
        c as u32 <= 0x7f ==> (is_whitespace(c) <==> c == ' ' || 0x09 <= c as u32 <= 0x0d),
        c as u32 > 0x3000 ==> !is_whitespace(c),
        is_whitespace(c) ==> !is_alphanumeric(c),
{
}

/// A text is trimmed of the blanks around it, and of nothing else.
pub proof fn lemma_trimmed_of_blanks(s: Seq<char>)
    ensures
        exists|a: Seq<char>, b: Seq<char>|
            s == #[trigger] (a + trimmed(s) + b) && (forall|i: int|
                0 <= i < a.len() ==> is_whitespace(#[trigger] a[i])) && (forall|i: int|
                0 <= i < b.len() ==> is_whitespace(#[trigger] b[i])),
        trimmed(s).len() > 0 ==> !is_whitespace(trimmed(s)[0]) && !is_whitespace(
            trimmed(s).last(),
        ),
{
    let t = trimmed_start(s);
    let a = lemma_trimmed_at_the_start(s);
    let b = lemma_trimmed_at_the_end(t);
    assert(a + trimmed(s) + b =~= s);
    if trimmed(s).len() > 0 {
        assert(trimmed(s)[0] == t[0]);
    }
}

proof fn lemma_trimmed_at_the_start(s: Seq<char>) -> (a: Seq<char>)
    ensures
        s == a + trimmed_start(s),
        forall|i: int| 0 <= i < a.len() ==> is_whitespace(#[trigger] a[i]),
        trimmed_start(s).len() > 0 ==> !is_whitespace(trimmed_start(s)[0]),
    decreases s.len(),
{
    if s.len() > 0 && is_whitespace(s[0]) {
        let rest = lemma_trimmed_at_the_start(s.drop_first());
        let a = seq![s[0]] + rest;
        assert(a + trimmed_start(s) =~= seq![s[0]] + s.drop_first());
        assert(seq![s[0]] + s.drop_first() =~= s);
        assert forall|i: int| 0 <= i < a.len() implies is_whitespace(#[trigger] a[i]) by {
            if i > 0 {
                assert(a[i] == rest[i - 1]);
            }
        }
        a
    } else {
        assert(Seq::<char>::empty() + s =~= s);
        Seq::empty()
    }
}

proof fn lemma_trimmed_at_the_end(s: Seq<char>) -> (b: Seq<char>)
    ensures
        s == trimmed_end(s) + b,
        forall|i: int| 0 <= i < b.len() ==> is_whitespace(#[trigger] b[i]),
        trimmed_end(s).len() > 0 ==> !is_whitespace(trimmed_end(s).last()),
    decreases s.len(),
{
    if s.len() > 0 && is_whitespace(s.last()) {
        let rest = lemma_trimmed_at_the_end(s.drop_last());
        let b = rest.push(s.last());
        assert(trimmed_end(s) + b =~= s.drop_last().push(s.last()));
        assert(s.drop_last().push(s.last()) =~= s);
        b
    } else {
        assert(s + Seq::<char>::empty() =~= s);
        Seq::empty()
    }
}

/// Parts that were joined by a character are read back, and a text is what its
/// parts give when they are joined.
pub proof fn lemma_parts_give_the_text(s: Seq<char>, c: char)
    ensures
        parts_of(s, c).len() > 0,
        joined(parts_of(s, c), seq![c]) == s,
        forall|i: int|
            0 <= i < parts_of(s, c).len() ==> !(#[trigger] parts_of(s, c)[i]).contains(c),
    decreases s.len(),
{
    let at = first_of(s, c);
    lemma_first_of_is_first(s, c);
    if at < s.len() {
        let head = s.take(at);
        let rest = s.skip(at + 1);
        let parts = parts_of(rest, c);
        lemma_parts_give_the_text(rest, c);
        lemma_joined_from_the_front(head, parts, seq![c]);
        assert(head + seq![c] + rest =~= s);
        assert forall|i: int| 0 <= i < parts_of(s, c).len() implies !(#[trigger] parts_of(
            s,
            c,
        )[i]).contains(c) by {
            if i > 0 {
                assert(parts_of(s, c)[i] == parts[i - 1]);
            }
        }
    }
}

proof fn lemma_first_of_is_first(s: Seq<char>, c: char)
    ensures
        0 <= first_of(s, c) <= s.len(),
        first_of(s, c) < s.len() ==> s[first_of(s, c)] == c,
        forall|i: int| 0 <= i < first_of(s, c) ==> s[i] != c,
    decreases s.len(),
{
    if s.len() > 0 && s[0] != c {
        lemma_first_of_is_first(s.drop_first(), c);
        assert forall|i: int| 0 <= i < first_of(s, c) implies s[i] != c by {
            if i > 0 {
                assert(s[i] == s.drop_first()[i - 1]);
            }
        }
    }
}

proof fn lemma_joined_from_the_front(
    head: Seq<char>,
    parts: Seq<Seq<char>>,
    separator: Seq<char>,
)
    requires
        parts.len() > 0,
    ensures
        joined(seq![head] + parts, separator) == head + separator + joined(parts, separator),
    decreases parts.len(),
{
    let all = seq![head] + parts;
    assert(all.last() == parts.last());
    assert(all.drop_last() =~= seq![head] + parts.drop_last());
    if parts.len() == 1 {
        assert(all.drop_last() =~= seq![head]);
        assert(joined(all.drop_last(), separator) == head);
    } else {
        lemma_joined_from_the_front(head, parts.drop_last(), separator);
        assert(joined(all, separator) =~= head + separator + joined(parts, separator));
    }
}

/// Two texts are ordered by the first character in which they differ, and a text
/// comes before every longer one that it begins.
pub proof fn lemma_order_of_texts(common: Seq<char>, a: char, b: char, x: Seq<char>, y: Seq<char>)
    ensures
        a as u32 != b as u32 ==> (text_less(common + seq![a] + x, common + seq![b] + y) <==> (
        a as u32) < (b as u32)),
        text_less(common, common + seq![b] + y),
        !text_less(common + seq![b] + y, common),
    decreases common.len(),
{
    let p = common + seq![a] + x;
    let q = common + seq![b] + y;
    if common.len() == 0 {
        assert(p[0] == a);
        assert(q[0] == b);
    } else {
        let rest = common.drop_first();
        assert(p[0] == common[0]);
        assert(q[0] == common[0]);
        assert(p.drop_first() =~= rest + seq![a] + x);
        assert(q.drop_first() =~= rest + seq![b] + y);
        lemma_order_of_texts(rest, a, b, x, y);
    }
}

} // verus!
