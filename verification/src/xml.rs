//! Escaping of text for use inside XML attribute values.

use vstd::prelude::*;
use crate::text::{digit, from_chars, hexadecimal, push_hexadecimal};

verus! {

/// Control characters: the C0 block, DEL and the C1 block.
pub open spec fn is_control(c: char) -> bool {
    c as u32 <= 0x1F || 0x7F <= c as u32 <= 0x9F
}

/// Horizontal tab, line feed and carriage return, which are written as they are.
pub open spec fn is_plain_whitespace(c: char) -> bool {
    c == '\t' || c == '\n' || c == '\r'
}

/// Characters that are written as a numeric character reference: control
/// characters other than tab, line feed and carriage return, the two
/// noncharacters that XML excludes from its character range, and the
/// replacement character, which stands for input that could not be decoded.
pub open spec fn needs_reference(c: char) -> bool {
    !is_plain_whitespace(c) && (is_control(c) || c == '\u{FFFD}' || c == '\u{FFFE}' || c
        == '\u{FFFF}')
}

/// The numeric character reference of `c`: `&#x`, the code point in upper-case
/// hexadecimal without padding, and `;`.
pub open spec fn char_reference(c: char) -> Seq<char> {
    seq!['&', '#', 'x'] + hexadecimal(c as nat) + seq![';']
}

/// What one character becomes inside an attribute value.
pub open spec fn escape_char(c: char) -> Seq<char> {
    if c == '&' {
        seq!['&', 'a', 'm', 'p', ';']
    } else if c == '<' {
        seq!['&', 'l', 't', ';']
    } else if c == '>' {
        seq!['&', 'g', 't', ';']
    } else if c == '"' {
        seq!['&', 'q', 'u', 'o', 't', ';']
    } else if c == '\'' {
        seq!['&', 'a', 'p', 'o', 's', ';']
    } else if needs_reference(c) {
        char_reference(c)
    } else {
        seq![c]
    }
}

/// The escaped form of a text: the escaped forms of its characters, in order.
pub open spec fn escape_text(s: Seq<char>) -> Seq<char>
    decreases s.len(),
{
    if s.len() == 0 {
        Seq::empty()
    } else {
        escape_text(s.drop_last()) + escape_char(s.last())
    }
}

/// Appends the escaped form of `c` to `out`.
pub fn push_escaped(out: &mut Vec<char>, c: char)
    ensures
        final(out)@ == old(out)@ + escape_char(c),
{
    let code: u32 = c as u32;
    if c == '&' {
        out.push('&');
        out.push('a');
        out.push('m');
        out.push('p');
        out.push(';');
    } else if c == '<' {
        out.push('&');
        out.push('l');
        out.push('t');
        out.push(';');
    } else if c == '>' {
        out.push('&');
        out.push('g');
        out.push('t');
        out.push(';');
    } else if c == '"' {
        out.push('&');
        out.push('q');
        out.push('u');
        out.push('o');
        out.push('t');
        out.push(';');
    } else if c == '\'' {
        out.push('&');
        out.push('a');
        out.push('p');
        out.push('o');
        out.push('s');
        out.push(';');
    } else if c != '\t' && c != '\n' && c != '\r' && (code <= 0x1F || (0x7F <= code && code
        <= 0x9F) || code == 0xFFFD || code == 0xFFFE || code == 0xFFFF) {
        out.push('&');
        out.push('#');
        out.push('x');
        push_hexadecimal(out, code);
        out.push(';');
    } else {
        out.push(c);
    }
}

/// Escapes special characters for XML output.
///
/// The five markup characters become their named entities; control and
/// noncharacter code points become numeric references; tab, line feed,
/// carriage return and every other character are kept.
pub fn xml_escape(s: &str) -> (escaped: String)
    ensures
        escaped@ == escape_text(s@),
        is_attribute_safe(escaped@),
{
    let mut out: Vec<char> = Vec::new();
    for c in it: s.chars()
        invariant
            it.seq() == s@,
            out@ == escape_text(s@.take(it.index() as int)),
    {
        proof {
            let n = it.index() as int;
            assert(s@.take(n + 1).drop_last() == s@.take(n));
        }
        push_escaped(&mut out, c);
    }
    proof {
        assert(s@.take(s@.len() as int) == s@);
        lemma_escape_text_is_safe(s@);
    }
    from_chars(&out)
}

/// The characters that delimit markup or attribute values.
pub open spec fn is_markup(c: char) -> bool {
    c == '<' || c == '>' || c == '"' || c == '\''
}

/// The characters that stand between `&` and `;` in a reference: letters,
/// digits and `#`.
pub open spec fn is_reference_char(c: char) -> bool {
    ('a' <= c <= 'z') || ('A' <= c <= 'Z') || ('0' <= c <= '9') || c == '#'
}

/// Whether a reference begins at position `i` of `text`: an `&`, at least
/// one reference character, and a `;`.
pub open spec fn reference_at(text: Seq<char>, i: int) -> bool {
    &&& 0 <= i < text.len()
    &&& text[i] == '&'
    &&& exists|j: int|
        i + 1 < j < text.len() && #[trigger] text[j] == ';' && forall|k: int|
            i < k < j ==> is_reference_char(#[trigger] text[k])
}

/// A text is safe inside a quoted attribute value if it holds no markup
/// character and every `&` in it begins a reference.
pub open spec fn is_attribute_safe(text: Seq<char>) -> bool {
    &&& forall|i: int| 0 <= i < text.len() ==> !is_markup(#[trigger] text[i])
    &&& forall|i: int| 0 <= i < text.len() && #[trigger] text[i] == '&' ==> reference_at(text, i)
}

/// A hexadecimal numeral is not empty and holds digits and the letters `A`
/// to `F` only.
pub proof fn lemma_hexadecimal_chars(n: nat)
    ensures
        hexadecimal(n).len() > 0,
        forall|k: int|
            0 <= k < hexadecimal(n).len() ==> is_reference_char(#[trigger] hexadecimal(n)[k])
                && hexadecimal(n)[k] != '#',
    decreases n,
{
    let last = digit((n % 16) as int);
    assert(is_reference_char(last) && last != '#') by {
        let d = (n % 16) as int;
        if d < 10 {
            assert(48 <= 48 + d <= 57);
        } else {
            assert(65 <= 55 + d <= 70);
        }
    }
    if n >= 16 {
        lemma_hexadecimal_chars(n / 16);
    }
}

/// The escaped form of one character is a single character that is neither
/// markup nor `&`, or a reference.
pub proof fn lemma_escape_char_is_safe(c: char)
    ensures
        is_attribute_safe(escape_char(c)),
        escape_char(c).len() > 0,
        escape_char(c).len() > 1 ==> reference_at(escape_char(c), 0),
{
    let e = escape_char(c);
    if c == '&' || c == '<' || c == '>' || c == '"' || c == '\'' {
        let j = e.len() - 1;
        assert(e[j] == ';');
        assert(reference_at(e, 0));
    } else if needs_reference(c) {
        let h = hexadecimal(c as nat);
        lemma_hexadecimal_chars(c as nat);
        let j = e.len() - 1;
        assert(e.len() == h.len() + 4);
        assert(e[0] == '&' && e[1] == '#' && e[2] == 'x');
        assert(e[j] == ';');
        assert forall|k: int| 3 <= k < j implies is_reference_char(#[trigger] e[k]) && e[k]
            != '&' by {
            assert(e[k] == h[k - 3]);
        }
        assert forall|k: int| 0 < k < j implies is_reference_char(#[trigger] e[k]) by {
            if k >= 3 {
                assert(e[k] == h[k - 3]);
            }
        }
        assert(reference_at(e, 0));
        assert forall|i: int| 0 <= i < e.len() implies !is_markup(#[trigger] e[i]) by {
            if 3 <= i < j {
                assert(e[i] == h[i - 3]);
            }
        }
        assert forall|i: int| 0 <= i < e.len() && #[trigger] e[i] == '&' implies reference_at(
            e,
            i,
        ) by {
            if 3 <= i < j {
                assert(e[i] == h[i - 3]);
            }
        }
    } else {
        assert(e =~= seq![c]);
    }
}

/// An escaped text is safe inside a quoted attribute value: it holds none
/// of `<`, `>`, `"` and `'`, and every `&` in it begins a reference.
pub proof fn lemma_escape_text_is_safe(s: Seq<char>)
    ensures
        is_attribute_safe(escape_text(s)),
    decreases s.len(),
{
    if s.len() > 0 {
        let before = escape_text(s.drop_last());
        let e = escape_char(s.last());
        let text = escape_text(s);
        lemma_escape_text_is_safe(s.drop_last());
        lemma_escape_char_is_safe(s.last());
        assert forall|i: int| 0 <= i < text.len() implies !is_markup(#[trigger] text[i]) by {
            if i < before.len() {
                assert(text[i] == before[i]);
            } else {
                assert(text[i] == e[i - before.len()]);
            }
        }
        assert forall|i: int| 0 <= i < text.len() && #[trigger] text[i] == '&' implies reference_at(
            text,
            i,
        ) by {
            if i < before.len() {
                assert(before[i] == '&');
                assert(reference_at(before, i));
                let j = choose|j: int|
                    i + 1 < j < before.len() && #[trigger] before[j] == ';' && forall|k: int|
                        i < k < j ==> is_reference_char(#[trigger] before[k]);
                assert(text[j] == ';');
                assert forall|k: int| i < k < j implies is_reference_char(#[trigger] text[k]) by {
                    assert(text[k] == before[k]);
                }
            } else {
                let at = i - before.len();
                assert(e[at] == '&');
                assert(reference_at(e, at));
                let j = choose|j: int|
                    at + 1 < j < e.len() && #[trigger] e[j] == ';' && forall|k: int|
                        at < k < j ==> is_reference_char(#[trigger] e[k]);
                assert(text[j + before.len()] == ';');
                assert forall|k: int| i < k < j + before.len() implies is_reference_char(
                    #[trigger] text[k],
                ) by {
                    assert(text[k] == e[k - before.len()]);
                }
            }
        }
    }
}

} // verus!
