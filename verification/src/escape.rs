//! HTML escaping of text and bytes, and span markup.

use vstd::prelude::*;
use crate::text::{chars_of, extend_str, string_of};

verus! {

/// What one character becomes in escaped HTML text.
pub open spec fn entity(c: char) -> Seq<char> {
    if c == '&' {
        "&amp;"@
    } else if c == '<' {
        "&lt;"@
    } else if c == '>' {
        "&gt;"@
    } else if c == '"' {
        "&quot;"@
    } else if c == '\'' {
        "&#39;"@
    } else {
        seq![c]
    }
}

/// `s` with each of `& < > " '` replaced by its HTML entity.
pub open spec fn escaped(s: Seq<char>) -> Seq<char>
    decreases s.len(),
{
    if s.len() == 0 {
        seq![]
    } else {
        escaped(s.drop_last()) + entity(s.last())
    }
}

/// Whether `c` ends or opens markup in HTML text or attributes.
pub open spec fn markup(c: char) -> bool {
    c == '<' || c == '>' || c == '"' || c == '\''
}

/// Escaped text holds no character that ends or opens markup, so it can
/// stand inside an element or a quoted attribute as it is.
pub proof fn lemma_escaped_inert(s: Seq<char>)
    ensures
        forall|i: int| 0 <= i < escaped(s).len() ==> !markup(#[trigger] escaped(s)[i]),
    decreases s.len(),
{
    if s.len() > 0 {
        lemma_escaped_inert(s.drop_last());
        let e = entity(s.last());
        let p = escaped(s.drop_last());
        reveal_strlit("&amp;");
        reveal_strlit("&lt;");
        reveal_strlit("&gt;");
        reveal_strlit("&quot;");
        reveal_strlit("&#39;");
        assert forall|i: int| 0 <= i < escaped(s).len() implies !markup(#[trigger] escaped(s)[i]) by {
            if i < p.len() {
                assert(escaped(s)[i] == p[i]);
            } else {
                assert(escaped(s)[i] == e[i - p.len()]);
            }
        }
    }
}

/// Appends the entity of `c` to `out`.
pub fn push_entity(out: &mut Vec<char>, c: char)
    ensures
        final(out)@ == old(out)@ + entity(c),
{
    if c == '&' {
        extend_str(out, "&amp;");
    } else if c == '<' {
        extend_str(out, "&lt;");
    } else if c == '>' {
        extend_str(out, "&gt;");
    } else if c == '"' {
        extend_str(out, "&quot;");
    } else if c == '\'' {
        extend_str(out, "&#39;");
    } else {
        out.push(c);
        assert(out@ == old(out)@ + seq![c]);
    }
}

/// Appends the escaped form of the characters `text` to `out`.
pub fn stream_chars(out: &mut Vec<char>, text: &Vec<char>)
    ensures
        final(out)@ == old(out)@ + escaped(text@),
{
    let mut i: usize = 0;
    while i < text.len()
        invariant
            0 <= i <= text.len(),
            out@ == old(out)@ + escaped(text@.take(i as int)),
        decreases text.len() - i,
    {
        let ghost before = out@;
        push_entity(out, text[i]);
        i = i + 1;
        assert(text@.take(i as int).drop_last() == text@.take((i - 1) as int));
    }
    assert(text@.take(text.len() as int) == text@);
}

/// Appends the escaped form of `text` to `out`.
pub fn stream(out: &mut Vec<char>, text: &str)
    ensures
        final(out)@ == old(out)@ + escaped(text@),
{
    let chars = chars_of(text);
    stream_chars(out, &chars);
}

/// Escapes the HTML special characters of `text`.
pub fn escape(text: &str) -> (r: String)
    ensures
        r@ == escaped(text@),
{
    let mut out: Vec<char> = Vec::new();
    stream(&mut out, text);
    assert(out@ == Seq::<char>::empty() + escaped(text@));
    string_of(&out)
}

/// The lowercase hexadecimal digit of `n < 16`.
pub open spec fn hex_digit(n: int) -> char {
    if n < 10 {
        (48 + n) as char
    } else {
        (87 + n) as char
    }
}

/// Whether a byte is shown as itself: an ASCII graphic character or a space.
pub open spec fn shown(b: u8) -> bool {
    (0x21 <= b && b <= 0x7e) || b == 0x20
}

/// What one byte becomes: itself when shown, else `\xHH` in lowercase hex.
pub open spec fn byte_text(b: u8) -> Seq<char> {
    if shown(b) {
        seq![b as char]
    } else {
        seq!['\\', 'x', hex_digit((b / 16) as int), hex_digit((b % 16) as int)]
    }
}

/// The readable form of a byte string.
pub open spec fn bytes_text(data: Seq<u8>) -> Seq<char>
    decreases data.len(),
{
    if data.len() == 0 {
        seq![]
    } else {
        bytes_text(data.drop_last()) + byte_text(data.last())
    }
}

fn hex(n: u8) -> (c: char)
    requires
        n < 16,
    ensures
        c == hex_digit(n as int),
{
    if n < 10 {
        (n + 48) as char
    } else {
        (n + 87) as char
    }
}

/// Renders bytes as text: printable ASCII and spaces as themselves, any other
/// byte as `\x` followed by two lowercase hexadecimal digits.
pub fn bytes(data: &[u8]) -> (r: String)
    ensures
        r@ == bytes_text(data@),
{
    let mut out: Vec<char> = Vec::new();
    let mut i: usize = 0;
    while i < data.len()
        invariant
            0 <= i <= data.len(),
            out@ == bytes_text(data@.take(i as int)),
        decreases data.len() - i,
    {
        let b = data[i];
        if (0x21 <= b && b <= 0x7e) || b == 0x20 {
            out.push(b as char);
        } else {
            out.push('\\');
            out.push('x');
            out.push(hex(b / 16));
            out.push(hex(b % 16));
        }
        i = i + 1;
        assert(data@.take(i as int).drop_last() == data@.take((i - 1) as int));
        assert(out@ == bytes_text(data@.take(i as int)));
    }
    assert(data@.take(data.len() as int) == data@);
    string_of(&out)
}

/// The opening tag of a node span of class `class`.
pub open spec fn opening(class: Seq<char>) -> Seq<char> {
    "<span class=\"node-"@ + class + "\">"@
}

/// Appends the opening tag of a node span of class `class` to `output`.
pub fn open(output: &mut String, class: &str)
    ensures
        final(output)@ == old(output)@ + opening(class@),
{
    output.append("<span class=\"node-");
    output.append(class);
    output.append("\">");
}

/// Appends a closing span tag to `output`.
pub fn close(output: &mut String)
    ensures
        final(output)@ == old(output)@ + "</span>"@,
{
    output.append("</span>");
}

} // verus!
