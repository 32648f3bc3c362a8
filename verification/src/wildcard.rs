//! Hex patterns with single-byte wildcards, and the search for their first
//! occurrence in a byte string.
//!
//! A pattern is text such as `"bb ?? dd"`: two-character tokens, each either
//! two hex digits (one literal byte) or `??` (any one byte). Whitespace
//! between characters carries no meaning and letters may be of either case.
//! A pattern that leaves a character unpaired, or holds a token that is
//! neither of the two forms, matches nothing.

use vstd::prelude::*;

verus! {

/// One element of a parsed pattern.
#[derive(Clone, Copy, Debug, PartialEq, Eq, Structural)]
pub enum PatternToken {
    /// `??`: stands for any single byte.
    Any,
    /// Two hex digits: stands for exactly this byte.
    Byte(u8),
}

/// The characters with the Unicode property `White_Space`.
pub open spec fn white_space(c: char) -> bool {
    let n = c as u32;
    ||| 0x09 <= n <= 0x0D
    ||| n == 0x20
    ||| n == 0x85
    ||| n == 0xA0
    ||| n == 0x1680
    ||| 0x2000 <= n <= 0x200A
    ||| n == 0x2028
    ||| n == 0x2029
    ||| n == 0x202F
    ||| n == 0x205F
    ||| n == 0x3000
}

/// The value of a hex digit of either case; `None` for any other character.
pub open spec fn hex_value(c: char) -> Option<u8> {
    if '0' <= c <= '9' {
        Some((c as u32 - '0' as u32) as u8)
    } else if 'a' <= c <= 'f' {
        Some((c as u32 - 'a' as u32 + 10) as u8)
    } else if 'A' <= c <= 'F' {
        Some((c as u32 - 'A' as u32 + 10) as u8)
    } else {
        None
    }
}

/// The token that two adjacent characters spell, if they spell one.
pub open spec fn token_of(hi: char, lo: char) -> Option<PatternToken> {
    if hi == '?' && lo == '?' {
        Some(PatternToken::Any)
    } else {
        match (hex_value(hi), hex_value(lo)) {
            (Some(h), Some(l)) => Some(PatternToken::Byte((h * 16 + l) as u8)),
            _ => None,
        }
    }
}

/// The pattern text with its whitespace removed.
pub open spec fn significant(text: Seq<char>) -> Seq<char> {
    text.filter(|c: char| !white_space(c))
}

/// Whitespace-free text that splits into tokens without a remainder.
pub open spec fn well_formed(s: Seq<char>) -> bool {
    &&& s.len() % 2 == 0
    &&& forall|i: int| 0 <= i < s.len() / 2 ==> (#[trigger] token_of(s[2 * i], s[2 * i + 1])) is Some
}

/// The tokens of whitespace-free text, pair by pair.
pub open spec fn tokens_in(s: Seq<char>) -> Seq<PatternToken> {
    Seq::new((s.len() / 2) as nat, |i: int| token_of(s[2 * i], s[2 * i + 1])->0)
}

/// The token sequence a pattern denotes; `None` when it is malformed.
pub open spec fn tokens_of(pattern: Seq<char>) -> Option<Seq<PatternToken>> {
    let s = significant(pattern);
    if well_formed(s) {
        Some(tokens_in(s))
    } else {
        None
    }
}

/// Whether one token accepts one byte.
pub open spec fn token_matches(token: PatternToken, byte: u8) -> bool {
    match token {
        PatternToken::Any => true,
        PatternToken::Byte(b) => b == byte,
    }
}

/// Whether the tokens match the data element by element, starting at `offset`.
pub open spec fn matches_at(tokens: Seq<PatternToken>, data: Seq<u8>, offset: int) -> bool {
    &&& 0 <= offset
    &&& offset + tokens.len() <= data.len()
    &&& forall|i: int|
        #![trigger tokens[i]]
        0 <= i < tokens.len() ==> token_matches(tokens[i], data[offset + i])
}

/// Whether `offset` is the first position at which the tokens match.
pub open spec fn leftmost_at(tokens: Seq<PatternToken>, data: Seq<u8>, offset: int) -> bool {
    &&& matches_at(tokens, data, offset)
    &&& forall|earlier: int| 0 <= earlier < offset ==> !matches_at(tokens, data, earlier)
}

/// Whether the tokens occur in the data. The empty token sequence occurs
/// only in empty data.
pub open spec fn occurs_in(tokens: Seq<PatternToken>, data: Seq<u8>) -> bool {
    if tokens.len() == 0 {
        data.len() == 0
    } else {
        exists|offset: int| matches_at(tokens, data, offset)
    }
}

/// Whether a pattern matches somewhere in the data.
pub open spec fn pattern_matches(pattern: Seq<char>, data: Seq<u8>) -> bool {
    match tokens_of(pattern) {
        Some(tokens) => occurs_in(tokens, data),
        None => false,
    }
}

/// Whether `(offset, length)` is the first occurrence of a pattern in the
/// data: `length` counts the pattern's tokens, they match at `offset`, and
/// they match at no earlier position.
pub open spec fn first_occurrence(
    pattern: Seq<char>,
    data: Seq<u8>,
    offset: int,
    length: int,
) -> bool {
    &&& tokens_of(pattern) matches Some(tokens)
    &&& length == tokens.len()
    &&& occurs_in(tokens, data)
    &&& leftmost_at(tokens, data, offset)
}

/// Tells whether a character is whitespace.
pub fn is_whitespace(c: char) -> (r: bool)
    ensures
        r == white_space(c),
{
    let n: u32 = c as u32;
    (0x09 <= n && n <= 0x0D) || n == 0x20 || n == 0x85 || n == 0xA0 || n == 0x1680 || (0x2000 <= n
        && n <= 0x200A) || n == 0x2028 || n == 0x2029 || n == 0x202F || n == 0x205F || n == 0x3000
}

/// Reads one hex digit.
pub fn hex_digit(c: char) -> (r: Option<u8>)
    ensures
        r == hex_value(c),
        r matches Some(v) ==> v < 16,
{
    let n: u32 = c as u32;
    if 0x30 <= n && n <= 0x39 {
        Some((n - 0x30) as u8)
    } else if 0x61 <= n && n <= 0x66 {
        Some((n - 0x61 + 10) as u8)
    } else if 0x41 <= n && n <= 0x46 {
        Some((n - 0x41 + 10) as u8)
    } else {
        None
    }
}

/// Reads the token that two adjacent characters spell.
pub fn read_token(hi: char, lo: char) -> (r: Option<PatternToken>)
    ensures
        r == token_of(hi, lo),
{
    if hi == '?' && lo == '?' {
        return Some(PatternToken::Any);
    }
    match hex_digit(hi) {
        Some(h) => match hex_digit(lo) {
            Some(l) => Some(PatternToken::Byte(h * 16 + l)),
            None => None,
        },
        None => None,
    }
}

/// Removing whitespace from a text that ends in `c` either drops `c` or
/// keeps it at the end.
proof fn lemma_significant_push(text: Seq<char>, c: char)
    ensures
        significant(text.push(c)) == if white_space(c) {
            significant(text)
        } else {
            significant(text).push(c)
        },
{
    reveal(Seq::filter);
    assert(text.push(c).drop_last() =~= text);
}

/// Removing whitespace from a prefix gives a prefix of the whole text with
/// its whitespace removed.
proof fn lemma_significant_prefix(text: Seq<char>, n: int)
    requires
        0 <= n <= text.len(),
    ensures
        significant(text.take(n)).len() <= significant(text).len(),
        significant(text.take(n)) == significant(text).take(significant(text.take(n)).len() as int),
{
    let pred = |c: char| !white_space(c);
    assert(text =~= text.take(n) + text.skip(n));
    Seq::filter_distributes_over_add(text.take(n), text.skip(n), pred);
    assert(significant(text) == significant(text.take(n)) + significant(text.skip(n)));
    assert(significant(text).take(significant(text.take(n)).len() as int) =~= significant(
        text.take(n),
    ));
}

/// Parses a pattern into its tokens.
///
/// Gives `None` exactly for the malformed patterns: those that leave a
/// character unpaired once whitespace is set aside, or hold a pair that is
/// neither `??` nor two hex digits.
pub fn parse_pattern(pattern: &str) -> (r: Option<Vec<PatternToken>>)
    ensures
        match r {
            Some(tokens) => tokens_of(pattern@) == Some(tokens@),
            None => tokens_of(pattern@) is None,
        },
{
    let mut tokens: Vec<PatternToken> = Vec::new();
    let mut pending: Option<char> = None;
    let chars = pattern.chars();
    for c in iter: chars
        invariant
            iter.seq() == pattern@,
            tokens@.len() == significant(pattern@.take(iter.index())).len() / 2,
            forall|i: int|
                0 <= i < tokens@.len() ==> (#[trigger] token_of(
                    significant(pattern@.take(iter.index()))[2 * i],
                    significant(pattern@.take(iter.index()))[2 * i + 1],
                )) == Some(tokens@[i]),
            match pending {
                Some(first) => significant(pattern@.take(iter.index())).len() % 2 == 1
                    && significant(pattern@.take(iter.index())).last() == first,
                None => significant(pattern@.take(iter.index())).len() % 2 == 0,
            },
    {
        let ghost seen = pattern@.take(iter.index());
        let ghost next = pattern@.take(iter.index() + 1);
        proof {
            assert(next =~= seen.push(c));
            lemma_significant_push(seen, c);
        }
        if !is_whitespace(c) {
            match pending {
                None => {
                    pending = Some(c);
                },
                Some(first) => {
                    let ghost at = tokens@.len() as int;
                    match read_token(first, c) {
                        Some(token) => {
                            tokens.push(token);
                            pending = None;
                        },
                        None => {
                            proof {
                                let whole = significant(pattern@);
                                lemma_significant_prefix(pattern@, iter.index() + 1);
                                assert(whole[2 * at] == significant(next)[2 * at]);
                                assert(whole[2 * at + 1] == significant(next)[2 * at + 1]);
                                assert(token_of(whole[2 * at], whole[2 * at + 1]) is None);
                            }
                            return None;
                        },
                    }
                },
            }
        }
    }
    proof {
        assert(pattern@.take(pattern@.len() as int) =~= pattern@);
    }
    match pending {
        Some(_) => None,
        None => {
            proof {
                assert(tokens@ =~= tokens_in(significant(pattern@)));
            }
            Some(tokens)
        },
    }
}

/// Tells whether the tokens match the data at one given position.
fn matches_here(tokens: &Vec<PatternToken>, data: &[u8], offset: usize) -> (r: bool)
    requires
        offset + tokens@.len() <= data@.len(),
    ensures
        r == matches_at(tokens@, data@, offset as int),
{
    assert(data@.len() == data.len());
    let mut i: usize = 0;
    while i < tokens.len()
        invariant
            i <= tokens@.len(),
            offset + tokens@.len() <= data@.len() <= usize::MAX,
            forall|j: int|
                #![trigger tokens@[j]]
                0 <= j < i ==> token_matches(tokens@[j], data@[offset + j]),
        decreases tokens@.len() - i,
    {
        match tokens[i] {
            PatternToken::Any => {},
            PatternToken::Byte(b) => {
                if data[offset + i] != b {
                    return false;
                }
            },
        }
        i = i + 1;
    }
    true
}

/// Finds the first position at which a token sequence occurs in the data.
///
/// The empty sequence occurs in empty data, at position 0, and nowhere else.
pub fn find_tokens(tokens: &Vec<PatternToken>, data: &[u8]) -> (r: Option<usize>)
    ensures
        match r {
            Some(offset) => occurs_in(tokens@, data@) && leftmost_at(tokens@, data@, offset as int),
            None => !occurs_in(tokens@, data@),
        },
{
    if tokens.len() == 0 {
        return if data.len() == 0 {
            Some(0)
        } else {
            None
        };
    }
    if data.len() < tokens.len() {
        return None;
    }
    let last: usize = data.len() - tokens.len();
    let mut start: usize = 0;
    while start <= last
        invariant
            tokens@.len() > 0,
            last + tokens@.len() == data@.len() <= usize::MAX,
            start <= last + 1,
            forall|earlier: int| 0 <= earlier < start ==> !matches_at(tokens@, data@, earlier),
        decreases last + 1 - start,
    {
        if matches_here(tokens, data, start) {
            return Some(start);
        }
        start = start + 1;
    }
    None
}

/// Finds the leftmost match of a pattern in the data, as the offset of the
/// match and its length in bytes, which is the pattern's token count.
///
/// An empty pattern matches empty data only, at `(0, 0)`. A malformed
/// pattern matches nothing.
pub fn wildcard_find(pattern: &str, data: &[u8]) -> (r: Option<(usize, usize)>)
    ensures
        match r {
            Some((offset, length)) => first_occurrence(
                pattern@,
                data@,
                offset as int,
                length as int,
            ),
            None => !pattern_matches(pattern@, data@),
        },
{
    match parse_pattern(pattern) {
        None => None,
        Some(tokens) => match find_tokens(&tokens, data) {
            Some(offset) => Some((offset, tokens.len())),
            None => None,
        },
    }
}

/// Tells whether a pattern matches somewhere in the data.
pub fn wildcard_match(pattern: &str, data: &[u8]) -> (r: bool)
    ensures
        r == pattern_matches(pattern@, data@),
{
    wildcard_find(pattern, data).is_some()
}

/// The upper-case form of an ASCII letter; any other character as it is.
pub open spec fn ascii_upper(c: char) -> char {
    if 'a' <= c <= 'z' {
        (c as u32 - 32) as char
    } else {
        c
    }
}

/// The lower-case form of an ASCII letter; any other character as it is.
pub open spec fn ascii_lower(c: char) -> char {
    if 'A' <= c <= 'Z' {
        (c as u32 + 32) as char
    } else {
        c
    }
}

/// A text with its ASCII letters in upper case.
pub open spec fn upper(text: Seq<char>) -> Seq<char> {
    text.map_values(|c: char| ascii_upper(c))
}

/// A text with its ASCII letters in lower case.
pub open spec fn lower(text: Seq<char>) -> Seq<char> {
    text.map_values(|c: char| ascii_lower(c))
}

/// The empty pattern matches empty data and no other.
pub proof fn lemma_empty_pattern(data: Seq<u8>)
    ensures
        pattern_matches(Seq::<char>::empty(), data) <==> data.len() == 0,
{
    reveal(Seq::filter);
    assert(significant(Seq::<char>::empty()) =~= Seq::<char>::empty());
    assert(tokens_in(Seq::<char>::empty()) =~= Seq::<PatternToken>::empty());
}

/// Data that a pattern matches holds at least as many bytes as the
/// pattern has tokens.
pub proof fn lemma_match_needs_room(pattern: Seq<char>, data: Seq<u8>)
    requires
        pattern_matches(pattern, data),
    ensures
        tokens_of(pattern) is Some,
        data.len() >= tokens_of(pattern)->0.len(),
{
    let tokens = tokens_of(pattern)->0;
    if tokens.len() > 0 {
        let offset = choose|offset: int| matches_at(tokens, data, offset);
        assert(matches_at(tokens, data, offset));
    }
}

/// A pattern has one first occurrence in the data at most.
pub proof fn lemma_first_occurrence_unique(
    pattern: Seq<char>,
    data: Seq<u8>,
    offset: int,
    length: int,
    other_offset: int,
    other_length: int,
)
    requires
        first_occurrence(pattern, data, offset, length),
        first_occurrence(pattern, data, other_offset, other_length),
    ensures
        offset == other_offset,
        length == other_length,
{
    let tokens = tokens_of(pattern)->0;
    if offset < other_offset {
        assert(!matches_at(tokens, data, offset));
    }
    if other_offset < offset {
        assert(!matches_at(tokens, data, other_offset));
    }
}

/// A pattern matches exactly where it has a first occurrence.
pub proof fn lemma_match_has_first_occurrence(pattern: Seq<char>, data: Seq<u8>)
    ensures
        pattern_matches(pattern, data) <==> exists|offset: int, length: int|
            first_occurrence(pattern, data, offset, length),
{
    if pattern_matches(pattern, data) {
        let tokens = tokens_of(pattern)->0;
        if tokens.len() == 0 {
            assert(matches_at(tokens, data, 0));
            assert(first_occurrence(pattern, data, 0, 0));
        } else {
            let some = choose|offset: int| matches_at(tokens, data, offset);
            lemma_leftmost_exists(tokens, data, some);
            let first = choose|first: int| leftmost_at(tokens, data, first);
            assert(first_occurrence(pattern, data, first, tokens.len() as int));
        }
    }
}

/// Where the tokens match at some position, they match at a first one.
proof fn lemma_leftmost_exists(tokens: Seq<PatternToken>, data: Seq<u8>, offset: int)
    requires
        matches_at(tokens, data, offset),
    ensures
        exists|first: int| leftmost_at(tokens, data, first),
    decreases offset,
{
    if exists|earlier: int| 0 <= earlier < offset && matches_at(tokens, data, earlier) {
        let earlier = choose|earlier: int| 0 <= earlier < offset && matches_at(tokens, data, earlier);
        lemma_leftmost_exists(tokens, data, earlier);
    } else {
        assert(leftmost_at(tokens, data, offset));
    }
}

/// Removing whitespace from text that holds none changes nothing.
pub proof fn lemma_significant_idempotent(text: Seq<char>)
    ensures
        significant(significant(text)) == significant(text),
    decreases text.len(),
{
    if text.len() == 0 {
        reveal(Seq::filter);
        assert(significant(text) =~= text);
    } else {
        let front = text.drop_last();
        let c = text.last();
        assert(text =~= front.push(c));
        lemma_significant_push(front, c);
        lemma_significant_idempotent(front);
        if !white_space(c) {
            lemma_significant_push(significant(front), c);
        }
    }
}

/// Whitespace in a pattern has no bearing on what the pattern matches.
pub proof fn lemma_whitespace_insensitive(pattern: Seq<char>, data: Seq<u8>)
    ensures
        tokens_of(significant(pattern)) == tokens_of(pattern),
        pattern_matches(significant(pattern), data) == pattern_matches(pattern, data),
{
    lemma_significant_idempotent(pattern);
}

/// Changing the characters of a pattern in a way that keeps whitespace
/// apart from all else, and keeps what any two characters spell, keeps
/// the tokens of the pattern.
proof fn lemma_tokens_under_map(pattern: Seq<char>, f: spec_fn(char) -> char)
    requires
        forall|c: char| white_space(#[trigger] f(c)) == white_space(c),
        forall|a: char, b: char| #[trigger] token_of(f(a), f(b)) == token_of(a, b),
    ensures
        significant(pattern.map_values(f)) == significant(pattern).map_values(f),
        tokens_of(pattern.map_values(f)) == tokens_of(pattern),
    decreases pattern.len(),
{
    lemma_significant_under_map(pattern, f);
    let s = significant(pattern);
    let t = s.map_values(f);
    assert(well_formed(t) == well_formed(s)) by {
        if well_formed(s) {
            assert forall|i: int| 0 <= i < t.len() / 2 implies (#[trigger] token_of(
                t[2 * i],
                t[2 * i + 1],
            )) is Some by {
                assert(token_of(f(s[2 * i]), f(s[2 * i + 1])) == token_of(s[2 * i], s[2 * i + 1]));
            }
        }
        if well_formed(t) {
            assert forall|i: int| 0 <= i < s.len() / 2 implies (#[trigger] token_of(
                s[2 * i],
                s[2 * i + 1],
            )) is Some by {
                assert(token_of(t[2 * i], t[2 * i + 1]) is Some);
                assert(token_of(f(s[2 * i]), f(s[2 * i + 1])) == token_of(s[2 * i], s[2 * i + 1]));
            }
        }
    }
    assert(tokens_in(t) =~= tokens_in(s)) by {
        assert forall|i: int| 0 <= i < s.len() / 2 implies tokens_in(t)[i] == tokens_in(s)[i] by {
            assert(token_of(f(s[2 * i]), f(s[2 * i + 1])) == token_of(s[2 * i], s[2 * i + 1]));
        }
    }
}

/// Removing whitespace and changing characters can be done in either
/// order, where the change keeps whitespace apart from all else.
proof fn lemma_significant_under_map(text: Seq<char>, f: spec_fn(char) -> char)
    requires
        forall|c: char| white_space(#[trigger] f(c)) == white_space(c),
    ensures
        significant(text.map_values(f)) == significant(text).map_values(f),
    decreases text.len(),
{
    if text.len() == 0 {
        reveal(Seq::filter);
        assert(text.map_values(f) =~= Seq::<char>::empty());
        assert(significant(text) =~= Seq::<char>::empty());
        assert(significant(text.map_values(f)) =~= significant(text).map_values(f));
    } else {
        let front = text.drop_last();
        let c = text.last();
        assert(text =~= front.push(c));
        assert(text.map_values(f) =~= front.map_values(f).push(f(c)));
        lemma_significant_push(front, c);
        lemma_significant_push(front.map_values(f), f(c));
        lemma_significant_under_map(front, f);
        if !white_space(c) {
            assert(significant(front).push(c).map_values(f) =~= significant(front).map_values(
                f,
            ).push(f(c)));
        }
    }
}

/// A pattern in upper case matches what the pattern matches.
pub proof fn lemma_case_insensitive(pattern: Seq<char>, data: Seq<u8>)
    ensures
        tokens_of(upper(pattern)) == tokens_of(pattern),
        pattern_matches(upper(pattern), data) == pattern_matches(pattern, data),
{
    let f = |c: char| ascii_upper(c);
    assert forall|c: char| white_space(#[trigger] f(c)) == white_space(c) by {
        lemma_hex_value_upper(c);
    }
    assert forall|a: char, b: char| #[trigger] token_of(f(a), f(b)) == token_of(a, b) by {
        lemma_hex_value_upper(a);
        lemma_hex_value_upper(b);
    }
    lemma_tokens_under_map(pattern, f);
    assert(upper(pattern) =~= pattern.map_values(f));
}

/// A pattern in lower case matches what the pattern matches.
pub proof fn lemma_case_insensitive_lower(pattern: Seq<char>, data: Seq<u8>)
    ensures
        tokens_of(lower(pattern)) == tokens_of(pattern),
        pattern_matches(lower(pattern), data) == pattern_matches(pattern, data),
{
    let f = |c: char| ascii_lower(c);
    assert forall|c: char| white_space(#[trigger] f(c)) == white_space(c) by {
        lemma_hex_value_lower(c);
    }
    assert forall|a: char, b: char| #[trigger] token_of(f(a), f(b)) == token_of(a, b) by {
        lemma_hex_value_lower(a);
        lemma_hex_value_lower(b);
    }
    lemma_tokens_under_map(pattern, f);
    assert(lower(pattern) =~= pattern.map_values(f));
}

/// A hex digit has the same value in upper case, and no other character
/// becomes a hex digit or a question mark there.
proof fn lemma_hex_value_upper(c: char)
    ensures
        hex_value(ascii_upper(c)) == hex_value(c),
        (ascii_upper(c) == '?') == (c == '?'),
        white_space(ascii_upper(c)) == white_space(c),
{
}

/// A hex digit has the same value in lower case, and no other character
/// becomes a hex digit or a question mark there.
proof fn lemma_hex_value_lower(c: char)
    ensures
        hex_value(ascii_lower(c)) == hex_value(c),
        (ascii_lower(c) == '?') == (c == '?'),
        white_space(ascii_lower(c)) == white_space(c),
{
}

} // verus!
