//! HTML escaping of text.
//!
//! Digits, the characters from `A` to `z` and the space are kept as they
//! are. Every other character becomes a numeric character reference with
//! upper-case hexadecimal digits, such as `&#x3C;` for `<`.

use vstd::prelude::*;
use vstd::string::StringExecFns;

verus! {

/// Whether `c` is copied to the output unchanged.
///
/// The range from `A` to `z` is taken as a whole, so it also covers the six
/// characters that sit between `Z` and `a` in ASCII.
pub open spec fn is_plain(c: char) -> bool {
    ||| '0' <= c <= '9'
    ||| 'A' <= c <= 'z'
    ||| c == ' '
}

/// The upper-case hexadecimal digit for a value below sixteen.
pub open spec fn hex_digit(d: nat) -> char
    recommends
        d < 16,
{
    if d < 10 {
        (48 + d) as char
    } else {
        (55 + d) as char
    }
}

/// The upper-case hexadecimal numeral of `n`, without leading zeros.
pub open spec fn upper_hex(n: nat) -> Seq<char>
    decreases n,
{
    if n < 16 {
        seq![hex_digit(n)]
    } else {
        upper_hex(n / 16).push(hex_digit(n % 16))
    }
}

/// The numeric character reference for `c`: `&#x`, the code point in
/// upper-case hexadecimal, and `;`.
pub open spec fn char_reference(c: char) -> Seq<char> {
    seq!['&', '#', 'x'] + upper_hex(c as nat) + seq![';']
}

/// What a single character becomes in escaped text.
pub open spec fn escaped_char(c: char) -> Seq<char> {
    if is_plain(c) {
        seq![c]
    } else {
        char_reference(c)
    }
}

/// The escaped form of `text`: the escaped forms of its characters, in order.
pub open spec fn escaped(text: Seq<char>) -> Seq<char>
    decreases text.len(),
{
    if text.len() == 0 {
        Seq::empty()
    } else {
        escaped(text.drop_last()) + escaped_char(text.last())
    }
}

/// `String::push` appends one character to the end of the string.
pub assume_specification[ String::push ](s: &mut String, c: char)
    ensures
        final(s)@ == old(s)@.push(c),
;

fn hex_digit_char(d: u32) -> (c: char)
    requires
        d < 16,
    ensures
        c == hex_digit(d as nat),
{
    let b: u8 = if d < 10 {
        48u8 + (d as u8)
    } else {
        55u8 + (d as u8)
    };
    b as char
}

/// Appends the upper-case hexadecimal numeral of `n` to `out`.
fn push_upper_hex(out: &mut String, n: u32)
    ensures
        final(out)@ == old(out)@ + upper_hex(n as nat),
    decreases n,
{
    if n >= 16 {
        push_upper_hex(out, n / 16);
    }
    out.push(hex_digit_char(n % 16));
}

/// Returns the numeric character reference for `khar`.
pub fn entity_escape_char(khar: &char) -> (reference: String)
    ensures
        reference@ == char_reference(*khar),
{
    let mut reference = String::new();
    reference.push('&');
    reference.push('#');
    reference.push('x');
    push_upper_hex(&mut reference, *khar as u32);
    reference.push(';');
    reference
}

/// Escapes `text` for use in HTML text or in an attribute value.
///
/// Text written in the kept characters alone comes back unchanged. The
/// result is never shorter than the text, and it holds none of `<`, `>`,
/// `"` and `'`.
pub fn html_escape(text: &str) -> (result: String)
    ensures
        result@ == escaped(text@),
        (forall|i: int| 0 <= i < text@.len() ==> is_plain(#[trigger] text@[i])) ==> result@
            == text@,
        result@.len() >= text@.len(),
        forall|i: int|
            0 <= i < result@.len() ==> {
                let c = #[trigger] result@[i];
                c != '<' && c != '>' && c != '"' && c != '\''
            },
{
    broadcast use vstd::string::group_string_axioms;

    let mut result = String::new();
    for khar in it: text.chars()
        invariant
            it.seq() == text@,
            result@ == escaped(text@.take(it.index() as int)),
    {
        proof {
            let upto = text@.take(it.index() + 1);
            assert(upto.drop_last() == text@.take(it.index() as int));
            assert(upto.last() == khar);
        }
        if is_plain_char(khar) {
            result.push(khar);
        } else {
            let reference = entity_escape_char(&khar);
            result.append(reference.as_str());
        }
    }
    proof {
        assert(text@.take(text@.len() as int) == text@);
        lemma_escaped_len(text@);
        lemma_escaped_alphabet(text@);
        if forall|i: int| 0 <= i < text@.len() ==> is_plain(#[trigger] text@[i]) {
            lemma_escaped_plain_is_identity(text@);
        }
    }
    result
}

fn is_plain_char(c: char) -> (plain: bool)
    ensures
        plain == is_plain(c),
{
    ('0' <= c && c <= '9') || ('A' <= c && c <= 'z') || c == ' '
}

/// Every digit of a hexadecimal numeral is one of `0` to `9` or `A` to `F`,
/// and the numeral has at least one digit.
pub proof fn lemma_upper_hex_digits(n: nat)
    ensures
        upper_hex(n).len() >= 1,
        forall|i: int|
            0 <= i < upper_hex(n).len() ==> {
                let c = #[trigger] upper_hex(n)[i];
                '0' <= c <= '9' || 'A' <= c <= 'F'
            },
    decreases n,
{
    if n >= 16 {
        lemma_upper_hex_digits(n / 16);
    }
}

/// Text made only of digits, of characters from `A` to `z` and of spaces is
/// its own escaped form.
pub proof fn lemma_escaped_plain_is_identity(text: Seq<char>)
    requires
        forall|i: int| 0 <= i < text.len() ==> is_plain(#[trigger] text[i]),
    ensures
        escaped(text) == text,
    decreases text.len(),
{
    if text.len() > 0 {
        lemma_escaped_plain_is_identity(text.drop_last());
        assert(is_plain(text.last()));
        assert(text.drop_last() + seq![text.last()] == text);
    }
}

/// The empty text stays empty, and no text gets shorter: every character
/// gives at least one character of output.
pub proof fn lemma_escaped_len(text: Seq<char>)
    ensures
        escaped(Seq::<char>::empty()) == Seq::<char>::empty(),
        escaped(text).len() >= text.len(),
    decreases text.len(),
{
    if text.len() > 0 {
        lemma_escaped_len(text.drop_last());
        lemma_escaped_char_shape(text.last());
    }
}

/// The escaped form of one character is either the character itself, where
/// it is kept, or a reference that starts with `&#x` and goes on with
/// hexadecimal digits and `;`.
pub proof fn lemma_escaped_char_shape(c: char)
    ensures
        escaped_char(c).len() >= 1,
        forall|j: int|
            0 <= j < escaped_char(c).len() ==> {
                let d = #[trigger] escaped_char(c)[j];
                is_plain(d) || d == '&' || d == '#' || d == ';'
            },
        forall|j: int|
            0 <= j < escaped_char(c).len() && #[trigger] escaped_char(c)[j] == '&' ==> j == 0
                && escaped_char(c).len() > 2 && escaped_char(c)[1] == '#' && escaped_char(c)[2]
                == 'x',
{
    lemma_upper_hex_digits(c as nat);
    let hex = upper_hex(c as nat);
    if !is_plain(c) {
        let whole = escaped_char(c);
        assert(whole.len() == hex.len() + 4);
        assert forall|j: int| 0 <= j < whole.len() implies {
            let d = #[trigger] whole[j];
            (is_plain(d) || d == '&' || d == '#' || d == ';') && (d == '&' ==> j == 0)
        } by {
            if 3 <= j < 3 + hex.len() {
                assert(whole[j] == hex[j - 3]);
            }
        }
    }
}

/// Escaped text is written in a small alphabet: the characters that are
/// kept as they are, and `&`, `#` and `;` from the character references.
/// So it holds none of `<`, `>`, `"` and `'`, whatever the text was.
pub proof fn lemma_escaped_alphabet(text: Seq<char>)
    ensures
        forall|i: int|
            0 <= i < escaped(text).len() ==> {
                let c = #[trigger] escaped(text)[i];
                is_plain(c) || c == '&' || c == '#' || c == ';'
            },
        forall|i: int|
            0 <= i < escaped(text).len() ==> {
                let c = #[trigger] escaped(text)[i];
                c != '<' && c != '>' && c != '"' && c != '\''
            },
    decreases text.len(),
{
    if text.len() > 0 {
        lemma_escaped_alphabet(text.drop_last());
        lemma_escaped_char_shape(text.last());
        let head = escaped(text.drop_last());
        let tail = escaped_char(text.last());
        assert forall|i: int| 0 <= i < escaped(text).len() implies {
            let c = #[trigger] escaped(text)[i];
            is_plain(c) || c == '&' || c == '#' || c == ';'
        } by {
            if i < head.len() {
                assert(escaped(text)[i] == head[i]);
            } else {
                assert(escaped(text)[i] == tail[i - head.len()]);
            }
        }
    }
}

/// Every `&` in escaped text starts a character reference: it is followed
/// by `#` and `x`.
pub proof fn lemma_escaped_ampersand_starts_reference(text: Seq<char>)
    ensures
        forall|i: int|
            0 <= i < escaped(text).len() && #[trigger] escaped(text)[i] == '&' ==> i + 2 < escaped(
                text,
            ).len() && escaped(text)[i + 1] == '#' && escaped(text)[i + 2] == 'x',
    decreases text.len(),
{
    if text.len() > 0 {
        lemma_escaped_ampersand_starts_reference(text.drop_last());
        lemma_escaped_char_shape(text.last());
        let head = escaped(text.drop_last());
        let tail = escaped_char(text.last());
        let whole = escaped(text);
        assert forall|i: int| 0 <= i < whole.len() && #[trigger] whole[i] == '&' implies i + 2
            < whole.len() && whole[i + 1] == '#' && whole[i + 2] == 'x' by {
            if i < head.len() {
                assert(whole[i] == head[i]);
                assert(whole[i + 1] == head[i + 1]);
                assert(whole[i + 2] == head[i + 2]);
            } else {
                assert(whole[i] == tail[i - head.len()]);
                assert(whole[i + 1] == tail[1]);
                assert(whole[i + 2] == tail[2]);
            }
        }
    }
}

/// The characters that HTML reads as markup become `&#x3C;`, `&#x3E;`,
/// `&#x26;` and `&#x22;`.
pub proof fn lemma_markup_characters_escaped()
    ensures
        escaped_char('<') == seq!['&', '#', 'x', '3', 'C', ';'],
        escaped_char('>') == seq!['&', '#', 'x', '3', 'E', ';'],
        escaped_char('&') == seq!['&', '#', 'x', '2', '6', ';'],
        escaped_char('"') == seq!['&', '#', 'x', '2', '2', ';'],
{
    reveal_with_fuel(upper_hex, 3);
    assert(upper_hex(60) == seq!['3', 'C']);
    assert(upper_hex(62) == seq!['3', 'E']);
    assert(upper_hex(38) == seq!['2', '6']);
    assert(upper_hex(34) == seq!['2', '2']);
}

} // verus!
