//! Byte strings written as hex text, and hex text read back as byte strings.
//!
//! Written form: two upper-case hex digits per byte, bytes separated by one
//! space. Read form: the grammar of patterns without the wildcard, so digits
//! of either case and whitespace anywhere.

use crate::wildcard::{
    hex_value, parse_pattern, significant, token_of, tokens_in, tokens_of, well_formed,
    white_space, PatternToken,
};
use vstd::prelude::*;
use vstd::utf8::encode_utf8;

verus! {

/// The upper-case hex digit for a value below 16.
pub open spec fn hex_char(n: int) -> char {
    if n < 10 {
        ('0' as u32 + n) as char
    } else {
        ('A' as u32 + n - 10) as char
    }
}

/// The two hex digits of a byte.
pub open spec fn hex_pair(b: u8) -> Seq<char> {
    seq![hex_char(b as int / 16), hex_char(b as int % 16)]
}

/// The written form of a byte string: `"AA BB CC"`.
pub open spec fn hex_text(bytes: Seq<u8>) -> Seq<char>
    decreases bytes.len(),
{
    if bytes.len() == 0 {
        Seq::empty()
    } else if bytes.len() == 1 {
        hex_pair(bytes[0])
    } else {
        hex_text(bytes.drop_last()) + seq![' '] + hex_pair(bytes.last())
    }
}

/// Whether no token is a wildcard.
pub open spec fn all_literal(tokens: Seq<PatternToken>) -> bool {
    forall|i: int| 0 <= i < tokens.len() ==> (#[trigger] tokens[i]) is Byte
}

/// The bytes of a wildcard-free token sequence.
pub open spec fn literal_bytes(tokens: Seq<PatternToken>) -> Seq<u8> {
    Seq::new(tokens.len(), |i: int| tokens[i]->Byte_0)
}

/// The byte string that hex text denotes; `None` when the text is not
/// wholly made of pairs of hex digits and whitespace.
pub open spec fn hex_bytes_of(text: Seq<char>) -> Option<Seq<u8>> {
    match tokens_of(text) {
        Some(tokens) => if all_literal(tokens) {
            Some(literal_bytes(tokens))
        } else {
            None
        },
        None => None,
    }
}

/// The bytes a replacement text stands for: the bytes its hex digits
/// denote or, when it is not hex text, its own bytes in UTF-8.
pub open spec fn replacement_bytes(text: Seq<char>) -> Seq<u8> {
    match hex_bytes_of(text) {
        Some(bytes) => bytes,
        None => encode_utf8(text),
    }
}

/// Appends the upper-case hex digit of `n` to `out`.
fn push_hex_digit(out: &mut String, n: u8)
    requires
        n < 16,
    ensures
        final(out)@ == old(out)@.push(hex_char(n as int)),
{
    let digits = "0123456789ABCDEF";
    proof {
        reveal_strlit("0123456789ABCDEF");
    }
    let at: usize = n as usize;
    let digit = digits.substring_ascii(at, at + 1);
    assert(digit@ =~= seq![hex_char(n as int)]);
    out.append(digit);
    assert(out@ =~= old(out)@.push(hex_char(n as int)));
}

/// Writes a byte string as hex text: two upper-case digits per byte, the
/// bytes separated by single spaces.
pub fn bytes_to_hex_string(data: &[u8]) -> (r: String)
    ensures
        r@ == hex_text(data@),
{
    let mut out = String::new();
    let mut i: usize = 0;
    while i < data.len()
        invariant
            i <= data@.len(),
            out@ == hex_text(data@.take(i as int)),
        decreases data@.len() - i,
    {
        let b = data[i];
        let ghost before = data@.take(i as int);
        let ghost after = data@.take(i + 1);
        proof {
            assert(after.drop_last() =~= before);
            assert(after.last() == b);
        }
        if i > 0 {
            out.append(" ");
            proof {
                reveal_strlit(" ");
                assert(" "@ =~= seq![' ']);
            }
        }
        push_hex_digit(&mut out, b / 16);
        push_hex_digit(&mut out, b % 16);
        proof {
            if i == 0 {
                assert(out@ =~= hex_pair(b));
            } else {
                assert(out@ =~= hex_text(before) + seq![' '] + hex_pair(b));
            }
        }
        i = i + 1;
    }
    proof {
        assert(data@.take(data@.len() as int) =~= data@);
    }
    out
}

/// Reads hex text as a byte string.
///
/// Gives `None` exactly when the text, whitespace set aside, is not a
/// sequence of pairs of hex digits.
pub fn parse_hex(text: &str) -> (r: Option<Vec<u8>>)
    ensures
        match r {
            Some(bytes) => hex_bytes_of(text@) == Some(bytes@),
            None => hex_bytes_of(text@) is None,
        },
{
    match parse_pattern(text) {
        None => None,
        Some(tokens) => {
            let mut bytes: Vec<u8> = Vec::new();
            let mut i: usize = 0;
            while i < tokens.len()
                invariant
                    tokens_of(text@) == Some(tokens@),
                    i <= tokens@.len(),
                    bytes@.len() == i,
                    forall|j: int| 0 <= j < i ==> (#[trigger] tokens@[j]) == PatternToken::Byte(bytes@[j]),
                decreases tokens@.len() - i,
            {
                match tokens[i] {
                    PatternToken::Any => {
                        assert(!(tokens@[i as int] is Byte));
                        return None;
                    },
                    PatternToken::Byte(b) => {
                        bytes.push(b);
                    },
                }
                i = i + 1;
            }
            proof {
                assert(bytes@ =~= literal_bytes(tokens@));
            }
            Some(bytes)
        },
    }
}

/// Decodes the replacement text of a rule: the bytes its hex digits denote
/// or, when it is not hex text, the bytes of the text itself.
pub fn decode_replacement(text: &str) -> (r: Vec<u8>)
    ensures
        r@ == replacement_bytes(text@),
{
    match parse_hex(text) {
        Some(bytes) => bytes,
        None => text.as_bytes_vec(),
    }
}

/// The hex digits of a byte string, without the spaces between the bytes.
pub open spec fn hex_digits(bytes: Seq<u8>) -> Seq<char> {
    Seq::new(
        2 * bytes.len(),
        |i: int|
            if i % 2 == 0 {
                hex_char(bytes[i / 2] as int / 16)
            } else {
                hex_char(bytes[i / 2] as int % 16)
            },
    )
}

/// The written form of a byte string, its spaces set aside, is the hex
/// digits of the bytes.
pub proof fn lemma_hex_text_digits(bytes: Seq<u8>)
    ensures
        significant(hex_text(bytes)) == hex_digits(bytes),
    decreases bytes.len(),
{
    let keep = |c: char| !white_space(c);
    if bytes.len() == 0 {
        reveal(Seq::filter);
        assert(significant(hex_text(bytes)) =~= hex_digits(bytes));
    } else {
        let b = bytes.last();
        let pair = hex_pair(b);
        assert(significant(pair) =~= pair) by {
            reveal_with_fuel(Seq::filter, 3);
            assert(pair.drop_last() =~= seq![pair[0]]);
            assert(pair.drop_last().drop_last() =~= Seq::<char>::empty());
        }
        if bytes.len() == 1 {
            assert(hex_digits(bytes) =~= pair);
        } else {
            let front = bytes.drop_last();
            lemma_hex_text_digits(front);
            let space = seq![' '];
            assert(significant(space) =~= Seq::<char>::empty()) by {
                reveal_with_fuel(Seq::filter, 2);
                assert(space.drop_last() =~= Seq::<char>::empty());
            }
            Seq::filter_distributes_over_add(hex_text(front), space, keep);
            Seq::filter_distributes_over_add(hex_text(front) + space, pair, keep);
            assert(significant(hex_text(bytes)) == significant(hex_text(front)) + significant(
                space,
            ) + significant(pair));
            assert(hex_digits(front) + pair =~= hex_digits(bytes)) by {
                assert forall|i: int| 0 <= i < 2 * bytes.len() implies (hex_digits(front) + pair)[i]
                    == hex_digits(bytes)[i] by {
                    if i < 2 * front.len() {
                        assert(front[i / 2] == bytes[i / 2]);
                    }
                }
            }
        }
    }
}

/// A hex digit stands for the value it was written for.
proof fn lemma_hex_char_value(n: int)
    requires
        0 <= n < 16,
    ensures
        hex_value(hex_char(n)) == Some(n as u8),
        hex_char(n) != '?',
{
}

/// Hex text that was written for a byte string reads back as that byte
/// string.
pub proof fn lemma_hex_round_trip(bytes: Seq<u8>)
    ensures
        hex_bytes_of(hex_text(bytes)) == Some(bytes),
{
    lemma_hex_text_digits(bytes);
    let s = hex_digits(bytes);
    assert forall|i: int| 0 <= i < s.len() / 2 implies (#[trigger] token_of(s[2 * i], s[2 * i + 1]))
        == Some(PatternToken::Byte(bytes[i])) by {
        let b = bytes[i] as int;
        assert((2 * i) / 2 == i && (2 * i) % 2 == 0);
        assert((2 * i + 1) / 2 == i && (2 * i + 1) % 2 == 1);
        lemma_hex_char_value(b / 16);
        lemma_hex_char_value(b % 16);
        assert((b / 16) * 16 + b % 16 == b);
    }
    assert(well_formed(s));
    let tokens = tokens_in(s);
    assert forall|i: int| 0 <= i < tokens.len() implies (#[trigger] tokens[i]) == PatternToken::Byte(
        bytes[i],
    ) by {
        assert(token_of(s[2 * i], s[2 * i + 1]) == Some(PatternToken::Byte(bytes[i])));
    }
    assert(all_literal(tokens));
    assert(literal_bytes(tokens) =~= bytes);
}

} // verus!
