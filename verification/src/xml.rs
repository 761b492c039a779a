//! The calls into `quick_xml` (and `std::str::from_utf8`) that the document
//! parser makes, each behind a small trusted wrapper.
//!
//! Reading XML is a function of the input alone, so its results carry
//! names: [`xml_event`] is the `index`-th event that a reader over the
//! input's bytes gives, and [`xml_normalized_value`] is what a raw
//! attribute value unescapes to. The parser's contract is stated over them.
use vstd::prelude::*;

use quick_xml::events::attributes::{AttrError, Attribute};
use quick_xml::events::{BytesStart, Event};
use quick_xml::{Reader, XmlVersion};
use std::str::Utf8Error;
use vstd::string::StringSliceAdditionalSpecFns;
use vstd::utf8::{decode_utf8, valid_utf8};

verus! {

#[verifier::external_type_specification]
#[verifier::external_body]
#[verifier::reject_recursive_types(R)]
pub struct ExReader<R>(Reader<R>);

#[verifier::external_type_specification]
#[verifier::external_body]
pub struct ExXmlError(quick_xml::Error);

#[verifier::external_type_specification]
#[verifier::external_body]
pub struct ExBytesStart<'a>(BytesStart<'a>);

#[verifier::external_type_specification]
#[verifier::external_body]
pub struct ExAttrError(AttrError);

#[verifier::external_type_specification]
#[verifier::external_body]
pub struct ExUtf8Error(Utf8Error);

/// One attribute of a tag as the reader splits it: the key's raw bytes and
/// the value's raw (still escaped) bytes, or the reader's attribute error.
pub type RawAttribute = Result<(Vec<u8>, Vec<u8>), AttrError>;

/// An opening or self-closing tag: the raw bytes of its name and its
/// attributes in source order.
pub struct XmlTag {
    /// The tag name's bytes.
    pub name: Vec<u8>,
    /// The attributes, in source order.
    pub attributes: Vec<RawAttribute>,
}

/// An attribute as a plain value: `None` where the reader reported an
/// attribute error, else the key's and the raw value's bytes.
pub open spec fn raw_attribute_view(a: RawAttribute) -> Option<(Seq<u8>, Seq<u8>)> {
    match a {
        Ok((k, v)) => Some((k@, v@)),
        Err(_) => None,
    }
}

/// The attributes of a tag as plain values, in source order.
pub open spec fn raw_attributes_view(attributes: Seq<RawAttribute>) -> Seq<
    Option<(Seq<u8>, Seq<u8>)>,
> {
    attributes.map_values(|a: RawAttribute| raw_attribute_view(a))
}

/// A tag as plain values: its name's bytes and its attributes.
pub struct XmlTagView {
    /// The tag name's bytes.
    pub name: Seq<u8>,
    /// The attributes, in source order.
    pub attributes: Seq<Option<(Seq<u8>, Seq<u8>)>>,
}

impl XmlTag {
    /// This tag as plain values.
    pub open spec fn view(&self) -> XmlTagView {
        XmlTagView { name: self.name@, attributes: raw_attributes_view(self.attributes@) }
    }
}

/// One event of the XML stream, as far as the document parser reads it.
pub enum XmlEvent {
    /// An opening tag `<name ...>`.
    Start(XmlTag),
    /// A self-closing tag `<name .../>`.
    Empty(XmlTag),
    /// A closing tag `</name>`.
    End,
    /// End of input.
    Eof,
    /// Text, comments, CDATA, declarations, processing instructions,
    /// doctype declarations and entity references.
    Other,
}

/// An event as a plain value.
pub enum XmlEventView {
    /// An opening tag.
    Start(XmlTagView),
    /// A self-closing tag.
    Empty(XmlTagView),
    /// A closing tag.
    End,
    /// End of input.
    Eof,
    /// Anything else.
    Other,
}

impl XmlEvent {
    /// This event as a plain value.
    pub open spec fn view(&self) -> XmlEventView {
        match self {
            XmlEvent::Start(t) => XmlEventView::Start(t.view()),
            XmlEvent::Empty(t) => XmlEventView::Empty(t.view()),
            XmlEvent::End => XmlEventView::End,
            XmlEvent::Eof => XmlEventView::Eof,
            XmlEvent::Other => XmlEventView::Other,
        }
    }
}

/// The `index`-th result (counting from 0) of `Reader::read_event_into`
/// on a reader made by `Reader::from_str` over a string with bytes `input`:
/// the event, or `None` where the reader reports an error.
pub uninterp spec fn xml_event(input: Seq<u8>, index: nat) -> Option<XmlEventView>;

/// What `Attribute::normalized_value` under XML 1.0 rules gives for the raw
/// attribute value `raw`: the unescaped, whitespace-normalised text, or
/// `None` where it reports an error.
pub uninterp spec fn xml_normalized_value(raw: Seq<u8>) -> Option<Seq<char>>;

/// A `quick_xml` reader over a string, with the string's bytes and the
/// number of events read so far kept as ghost state.
pub struct XmlStream<'a> {
    reader: Reader<&'a [u8]>,
    input: Ghost<Seq<u8>>,
    read: Ghost<nat>,
}

impl<'a> XmlStream<'a> {
    /// The bytes of the string being read.
    pub closed spec fn input_view(&self) -> Seq<u8> {
        self.input@
    }

    /// How many events have been read.
    pub closed spec fn read_view(&self) -> nat {
        self.read@
    }

    /// A reader at the start of `input`.
    pub fn new(input: &'a str) -> (r: Self)
        ensures
            r.input_view() == input.spec_bytes(),
            r.read_view() == 0,
    {
        XmlStream { reader: xml_reader(input), input: Ghost(input.spec_bytes()), read: Ghost(0) }
    }
}

/// `quick_xml::Reader::from_str`: a reader over `input`.
#[verifier::external_body]
fn xml_reader(input: &str) -> Reader<&[u8]> {
    Reader::from_str(input)
}

/// `quick_xml::Reader::read_event_into` with a fresh buffer: the next event
/// of the stream, the tag's name and attributes (`BytesStart::name`,
/// `BytesStart::attributes`, each attribute's key and raw value) copied out.
/// The result is the stream's next named event, [`xml_event`], and the
/// stream's ghost count of events read advances by one (it counts the
/// calls; nothing at run time reads it).
#[verifier::external_body]
pub(crate) fn read_xml_event(stream: &mut XmlStream) -> (r: Result<XmlEvent, quick_xml::Error>)
    ensures
        final(stream).input_view() == old(stream).input_view(),
        final(stream).read_view() == old(stream).read_view() + 1,
        match xml_event(old(stream).input_view(), old(stream).read_view()) {
            None => r is Err,
            Some(e) => r matches Ok(event) && event.view() == e,
        },
{
    let tag = |e: BytesStart| XmlTag {
        name: e.name().into_inner().to_vec(),
        attributes: e.attributes().map(|a| a.map(|a| (a.key.0.to_vec(), a.value.into_owned()))).collect(),
    };
    match stream.reader.read_event_into(&mut Vec::new()) {
        Ok(Event::Start(e)) => Ok(XmlEvent::Start(tag(e))),
        Ok(Event::Empty(e)) => Ok(XmlEvent::Empty(tag(e))),
        Ok(Event::End(_)) => Ok(XmlEvent::End),
        Ok(Event::Eof) => Ok(XmlEvent::Eof),
        Ok(_) => Ok(XmlEvent::Other),
        Err(e) => Err(e),
    }
}

/// `Attribute::normalized_value` under XML 1.0 rules, on an attribute whose
/// raw value is `raw` (the method reads the value alone): the unescaped
/// value, or the error; named [`xml_normalized_value`].
#[verifier::external_body]
pub(crate) fn normalized_value(raw: &[u8]) -> (r: Result<String, quick_xml::Error>)
    ensures
        match xml_normalized_value(raw@) {
            None => r is Err,
            Some(v) => r matches Ok(s) && s@ == v,
        },
{
    Attribute::from((&[][..], raw)).normalized_value(XmlVersion::Implicit1_0).map(|v| v.into_owned())
}

/// `std::str::from_utf8`, copied into a `String`: succeeds exactly on valid
/// UTF-8, and then holds the decoded characters.
#[verifier::external_body]
pub(crate) fn utf8_to_string(bytes: &[u8]) -> (r: Result<String, Utf8Error>)
    ensures
        r is Ok <==> valid_utf8(bytes@),
        r matches Ok(s) ==> s@ == decode_utf8(bytes@),
{
    std::str::from_utf8(bytes).map(|s| s.to_owned())
}

} // verus!
