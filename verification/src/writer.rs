//! The event writer that serialises the report, one element at a time.
//!
//! The writer is `quick_xml::Writer` over a byte vector. Nothing in this
//! file is proved: each function states what the call in its body does to
//! the writer. The calls return an `io::Result`, which comes from writing
//! to the vector; a vector takes every write, so the result is dropped.

use std::borrow::Cow;
use quick_xml::Writer;
use quick_xml::events::{BytesDecl, BytesEnd, BytesStart, Event};
use quick_xml::events::attributes::Attribute;
use quick_xml::name::QName;
use vstd::prelude::*;
use vstd::utf8::encode_utf8;

verus! {

/// `quick_xml::Writer`, of which nothing is seen but what the names below
/// say.
#[verifier::external_type_specification]
#[verifier::external_body]
#[verifier::reject_recursive_types(W)]
pub struct ExWriter<W>(Writer<W>);

/// `quick_xml::events::BytesStart`, a start tag under construction.
#[verifier::external_type_specification]
#[verifier::external_body]
pub struct ExBytesStart<'a>(BytesStart<'a>);

/// The bytes in the vector that the writer writes into.
pub uninterp spec fn buffered(w: Writer<Vec<u8>>) -> Seq<u8>;

/// For a writer that was made to indent with the space character, one per
/// level: `Some(n)`, where `n` is the length of its current indentation.
/// `None` for a writer made in any other way.
pub uninterp spec fn indent_level(w: Writer<Vec<u8>>) -> Option<nat>;

/// Whether an indenting writer begins a new line before the next element:
/// a new writer does not, and a writer that has written an element does.
pub uninterp spec fn breaks_line(w: Writer<Vec<u8>>) -> bool;

/// The content of a start tag: its name, then its attributes as they were
/// pushed.
pub uninterp spec fn tag_content(e: BytesStart<'static>) -> Seq<char>;

/// `n` spaces.
pub open spec fn spaces(n: nat) -> Seq<char> {
    Seq::new(n, |i: int| ' ')
}

/// What the writer puts before an element at level `level`: nothing at the
/// start of the output, else a line feed and the indentation.
pub open spec fn line_start(breaks: bool, level: nat) -> Seq<char> {
    if breaks {
        seq!['\n'] + spaces(level)
    } else {
        Seq::empty()
    }
}

/// `Writer::new_with_indent` over an empty vector, with one space per level.
#[verifier::external_body]
pub(crate) fn new_writer() -> (w: Writer<Vec<u8>>)
    ensures
        buffered(w) == Seq::<u8>::empty(),
        indent_level(w) == Some(0nat),
        !breaks_line(w),
{
    Writer::new_with_indent(Vec::new(), b' ', 1)
}

/// `BytesStart::new`: a start tag with the given name and no attribute.
#[verifier::external_body]
pub(crate) fn new_tag(name: &str) -> (e: BytesStart<'static>)
    ensures
        tag_content(e) == name@,
{
    BytesStart::new(name.to_owned())
}

/// `BytesStart::push_attribute` with a raw attribute: appends a space, the
/// key, `="`, the value as it is given, and `"`.
#[verifier::external_body]
pub(crate) fn push_attribute(e: &mut BytesStart<'static>, key: &str, value: &str)
    ensures
        tag_content(*final(e)) == tag_content(*old(e)) + seq![' '] + key@ + seq!['=', '"']
            + value@ + seq!['"'],
{
    e.push_attribute(Attribute { key: QName(key), value: Cow::Borrowed(value) });
}

/// `Writer::write_event` with `Event::Decl` of `BytesDecl::new`: the XML
/// declaration with a version and an encoding, on the current line start.
#[verifier::external_body]
pub(crate) fn write_declaration(w: &mut Writer<Vec<u8>>, version: &str, encoding: &str)
    requires
        indent_level(*old(w)) is Some,
    ensures
        buffered(*final(w)) == buffered(*old(w)) + encode_utf8(
            line_start(breaks_line(*old(w)), indent_level(*old(w))->0) + "<?xml version=\""@
                + version@ + "\" encoding=\""@ + encoding@ + "\"?>"@,
        ),
        indent_level(*final(w)) == indent_level(*old(w)),
        breaks_line(*final(w)),
{
    w.write_event(Event::Decl(BytesDecl::new(version, Some(encoding), None))).unwrap_or_default();
}

/// `Writer::write_event` with `Event::Start`: the tag between `<` and `>`
/// on a new line at the current level; the level then grows by one.
#[verifier::external_body]
pub(crate) fn write_start(w: &mut Writer<Vec<u8>>, e: BytesStart<'static>)
    requires
        indent_level(*old(w)) is Some,
        indent_level(*old(w))->0 < usize::MAX,
    ensures
        buffered(*final(w)) == buffered(*old(w)) + encode_utf8(
            line_start(breaks_line(*old(w)), indent_level(*old(w))->0) + seq!['<']
                + tag_content(e) + seq!['>'],
        ),
        indent_level(*final(w)) == Some(indent_level(*old(w))->0 + 1),
        breaks_line(*final(w)),
{
    w.write_event(Event::Start(e)).unwrap_or_default();
}

/// `Writer::write_event` with `Event::Empty`: the tag between `<` and `/>`
/// on a new line at the current level, which stays.
#[verifier::external_body]
pub(crate) fn write_empty(w: &mut Writer<Vec<u8>>, e: BytesStart<'static>)
    requires
        indent_level(*old(w)) is Some,
    ensures
        buffered(*final(w)) == buffered(*old(w)) + encode_utf8(
            line_start(breaks_line(*old(w)), indent_level(*old(w))->0) + seq!['<']
                + tag_content(e) + seq!['/', '>'],
        ),
        indent_level(*final(w)) == indent_level(*old(w)),
        breaks_line(*final(w)),
{
    w.write_event(Event::Empty(e)).unwrap_or_default();
}

/// The level after an end tag: one less, and zero stays zero.
pub open spec fn level_after_end(level: nat) -> nat {
    if level == 0 {
        0
    } else {
        (level - 1) as nat
    }
}

/// `Writer::write_event` with `Event::End` of `BytesEnd::new`: the level
/// first shrinks by one, then the name is written between `</` and `>` on a
/// new line at that level.
#[verifier::external_body]
pub(crate) fn write_end(w: &mut Writer<Vec<u8>>, name: &str)
    requires
        indent_level(*old(w)) is Some,
    ensures
        buffered(*final(w)) == buffered(*old(w)) + encode_utf8(
            line_start(breaks_line(*old(w)), level_after_end(indent_level(*old(w))->0))
                + seq!['<', '/'] + name@ + seq!['>'],
        ),
        indent_level(*final(w)) == Some(level_after_end(indent_level(*old(w))->0)),
        breaks_line(*final(w)),
{
    w.write_event(Event::End(BytesEnd::new(name))).unwrap_or_default();
}

/// `Writer::get_mut`, to append one line feed to the vector directly.
#[verifier::external_body]
pub(crate) fn write_line_feed(w: &mut Writer<Vec<u8>>)
    ensures
        buffered(*final(w)) == buffered(*old(w)).push(10u8),
        indent_level(*final(w)) == indent_level(*old(w)),
        breaks_line(*final(w)) == breaks_line(*old(w)),
{
    w.get_mut().push(b'\n');
}

/// `Writer::get_mut`, to move the bytes written so far out of the vector.
#[verifier::external_body]
pub(crate) fn take_buffer(w: &mut Writer<Vec<u8>>) -> (bytes: Vec<u8>)
    ensures
        bytes@ == buffered(*old(w)),
        buffered(*final(w)) == Seq::<u8>::empty(),
        indent_level(*final(w)) == indent_level(*old(w)),
        breaks_line(*final(w)) == breaks_line(*old(w)),
{
    std::mem::take(w.get_mut())
}

} // verus!
