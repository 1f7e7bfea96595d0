//! Comments in the formats of Bilibili: the XML document, and the elements of
//! the protobuf reply.

use super::fields::{
    attributes_of, kind_from_mode, kind_of_mode, parse_attributes, size_from_font, size_of_font,
    FieldError,
};
use super::{sorted_by_time, DanmakuSource, VecDanmakuSource};
use crate::danmaku::{Danmaku, DanmakuColor, DanmakuTime};
use quick_xml::events::attributes::AttrError;
use quick_xml::events::Event;
use quick_xml::reader::Reader;
use vstd::prelude::*;
use vstd::string::StringExecFns;
use vstd::utf8::{decode_utf8, valid_utf8};

verus! {

/// Makes `quick_xml::Error` known to the verifier, which sees nothing of what a value holds.
#[verifier::external_type_specification]
#[verifier::external_body]
pub struct ExXmlError(quick_xml::Error);

/// Makes `AttrError` known to the verifier, which sees nothing of what a value holds.
#[verifier::external_type_specification]
#[verifier::external_body]
pub struct ExAttrError(AttrError);

/// Makes `Event<'a>` known to the verifier, which sees nothing of what a value holds.
#[verifier::external_type_specification]
#[verifier::external_body]
pub struct ExEvent<'a>(Event<'a>);

/// Makes `Reader<R>` known to the verifier, which sees nothing of what a value holds.
#[verifier::external_type_specification]
#[verifier::external_body]
#[verifier::reject_recursive_types(R)]
pub struct ExReader<R>(Reader<R>);

/// What kind of event the reader reported.
#[derive(PartialEq, Eq, Structural, Clone, Copy, Debug)]
pub enum EventKind {
    Start,
    End,
    Text,
    Eof,
    Other,
}

/// The events that quick-xml's reader reports for a document, in order, up to
/// and including the end of the document or the first event that it cannot
/// read. They follow from the bytes alone.
pub uninterp spec fn xml_events(bytes: Seq<u8>) -> Seq<XmlInput>;

/// The events that a reader has still to report, up to and including the end
/// of the document or the first event that it cannot read; none once it has
/// reported that.
pub uninterp spec fn reader_events(reader: Reader<&[u8]>) -> Seq<XmlInput>;

/// An event of the reader as plain values: its kind, and of a tag the raw
/// name, of an opening tag the attributes, of a text event the text.
pub uninterp spec fn event_input(event: Event) -> XmlInput;

/// A run of events is whole: it ends with the end of the document or with an
/// event that cannot be read, and holds neither before.
pub open spec fn whole_run(events: Seq<XmlInput>) -> bool {
    &&& events.len() > 0
    &&& events.last().ends()
    &&& forall|i: int| 0 <= i < events.len() - 1 ==> !(#[trigger] events[i]).ends()
}

/// `Reader::from_reader` on a slice of bytes, with the settings that it starts
/// with. The reader reads from the start of the bytes; every event but the
/// last uses up at least one byte, so the run of events is whole and has at
/// most one event more than the document has bytes.
#[verifier::external_body]
fn open_reader<'a>(bytes: &'a [u8]) -> (reader: Reader<&'a [u8]>)
    ensures
        reader_events(reader) == xml_events(bytes@),
        whole_run(reader_events(reader)),
        reader_events(reader).len() <= bytes@.len() + 1,
{
    Reader::from_reader(bytes)
}

/// `Reader::read_event`: the next event of the document, or why it cannot be
/// read. While events are left to report, it is the first of them, and the
/// others are left.
#[verifier::external_body]
fn read_event<'a>(reader: &mut Reader<&'a [u8]>) -> (event: Result<Event<'a>, quick_xml::Error>)
    ensures
        reader_events(*old(reader)).len() > 0 ==> {
            &&& reader_events(*final(reader)) == reader_events(*old(reader)).skip(1)
            &&& match event {
                Ok(event) => event_input(event) == reader_events(*old(reader))[0],
                Err(error) => XmlInput::Failed(error) == reader_events(*old(reader))[0],
            }
        },
{
    reader.read_event()
}

/// Tells the variants of `Event` apart. An event that was read is of some
/// kind; only a failure to read has none.
#[verifier::external_body]
fn event_kind<'a>(event: &Event<'a>) -> (kind: EventKind)
    ensures
        Some(kind) == event_input(*event).kind(),
{
    match event {
        Event::Start(_) => EventKind::Start,
        Event::End(_) => EventKind::End,
        Event::Text(_) => EventKind::Text,
        Event::Eof => EventKind::Eof,
        _ => EventKind::Other,
    }
}

/// `BytesStart::name` and `BytesEnd::name`: the raw name of a tag; nothing
/// for an event that is no tag.
#[verifier::external_body]
fn tag_name<'a>(event: &Event<'a>) -> (name: Vec<u8>)
    ensures
        match event_input(*event) {
            XmlInput::Start { name: raw, .. } => name == raw,
            XmlInput::End { name: raw } => name == raw,
            _ => name@.len() == 0,
        },
{
    match event {
        Event::Start(tag) => tag.name().0.to_vec(),
        Event::End(tag) => tag.name().0.to_vec(),
        _ => Vec::new(),
    }
}

/// `BytesStart::attributes`: the attributes of an opening tag in order, each as
/// its raw key and raw value, or as the error that reading it gave; none for
/// any other event.
#[verifier::external_body]
fn tag_attributes<'a>(event: &Event<'a>) -> (attributes: Vec<Result<(Vec<u8>, Vec<u8>), AttrError>>)
    ensures
        match event_input(*event) {
            XmlInput::Start { attributes: raw, .. } => attributes == raw,
            _ => attributes@.len() == 0,
        },
{
    match event {
        Event::Start(tag) => tag.attributes().map(
            |item| item.map(|item| (item.key.0.to_vec(), item.value.to_vec())),
        ).collect(),
        _ => Vec::new(),
    }
}

/// `BytesText::unescape`: the text of a text event, decoded and with its
/// escape sequences resolved; nothing for any other event.
#[verifier::external_body]
fn text_content<'a>(event: &Event<'a>) -> (text: Option<Result<String, quick_xml::Error>>)
    ensures
        match event_input(*event) {
            XmlInput::Text(content) => text == Some(content),
            _ => text is None,
        },
{
    match event {
        Event::Text(text) => Some(text.unescape().map(|text| text.into_owned())),
        _ => None,
    }
}

/// `str::from_utf8`: the text that the bytes encode, if they are UTF-8.
#[verifier::external_body]
fn utf8_text(bytes: &[u8]) -> (text: Option<String>)
    ensures
        match text {
            Some(text) => valid_utf8(bytes@) && text@ == decode_utf8(bytes@),
            None => !valid_utf8(bytes@),
        },
{
    std::str::from_utf8(bytes).ok().map(|text| text.to_string())
}

/// `Display` of `quick_xml::Error`: the error in words.
#[verifier::external_body]
fn xml_error_text(error: &quick_xml::Error) -> String {
    format!("{}", error)
}

/// `Display` of `AttrError`: the error in words.
#[verifier::external_body]
fn attr_error_text(error: &AttrError) -> String {
    format!("{}", error)
}

/// One event of an XML document, as plain values.
#[derive(Debug)]
pub enum XmlInput {
    /// An opening tag.
    Start { name: Vec<u8>, attributes: Vec<Result<(Vec<u8>, Vec<u8>), AttrError>> },
    /// A closing tag.
    End { name: Vec<u8> },
    /// Text between tags, unescaped, or why it cannot be unescaped.
    Text(Result<String, quick_xml::Error>),
    /// The end of the document.
    Eof,
    /// Anything else: comments, declarations, empty elements and the like.
    Other,
    /// The document cannot be read.
    Failed(quick_xml::Error),
}

impl XmlInput {
    /// The kind of an event that was read; a failure to read has none.
    pub open spec fn kind(self) -> Option<EventKind> {
        match self {
            XmlInput::Start { .. } => Some(EventKind::Start),
            XmlInput::End { .. } => Some(EventKind::End),
            XmlInput::Text(_) => Some(EventKind::Text),
            XmlInput::Eof => Some(EventKind::Eof),
            XmlInput::Other => Some(EventKind::Other),
            XmlInput::Failed(_) => None,
        }
    }

    /// Whether nothing is read after this event.
    pub open spec fn ends(self) -> bool {
        self is Eof || self is Failed
    }

    /// The event that the parts of a reader's event make: an opening tag has
    /// a name and attributes, a closing tag a name, a text event its text; of
    /// the end of the document and of all other events only the kind counts.
    pub open spec fn of_parts(
        kind: EventKind,
        name: Vec<u8>,
        attributes: Vec<Result<(Vec<u8>, Vec<u8>), AttrError>>,
        text: Option<Result<String, quick_xml::Error>>,
    ) -> XmlInput {
        match kind {
            EventKind::Start => XmlInput::Start { name, attributes },
            EventKind::End => XmlInput::End { name },
            EventKind::Text => match text {
                Some(text) => XmlInput::Text(text),
                None => XmlInput::Other,
            },
            EventKind::Eof => XmlInput::Eof,
            EventKind::Other => XmlInput::Other,
        }
    }

    /// Puts the parts of a reader's event together.
    pub fn from_parts(
        kind: EventKind,
        name: Vec<u8>,
        attributes: Vec<Result<(Vec<u8>, Vec<u8>), AttrError>>,
        text: Option<Result<String, quick_xml::Error>>,
    ) -> (input: XmlInput)
        ensures
            input == Self::of_parts(kind, name, attributes, text),
    {
        match kind {
            EventKind::Start => XmlInput::Start { name, attributes },
            EventKind::End => XmlInput::End { name },
            EventKind::Text => match text {
                Some(text) => XmlInput::Text(text),
                None => XmlInput::Other,
            },
            EventKind::Eof => XmlInput::Eof,
            EventKind::Other => XmlInput::Other,
        }
    }
}

/// Reads the next event of the document: while events are left to report,
/// the first of them, as plain values; an event that cannot be read is handed
/// on as such.
fn next_input<'a>(reader: &mut Reader<&'a [u8]>) -> (input: XmlInput)
    ensures
        reader_events(*old(reader)).len() > 0 ==> {
            &&& input == reader_events(*old(reader))[0]
            &&& reader_events(*final(reader)) == reader_events(*old(reader)).skip(1)
        },
{
    match read_event(reader) {
        Err(error) => XmlInput::Failed(error),
        Ok(event) => XmlInput::from_parts(
            event_kind(&event),
            tag_name(&event),
            tag_attributes(&event),
            text_content(&event),
        ),
    }
}

/// Why a document is no source of comments.
#[derive(Debug)]
pub enum BilibiliXmlParseError {
    InvalidRootNode(String),
    UnknownNode(String),
    FoundDuplicateAttributes,
    MissingAttributes,
    BadAttribute,
    XmlReadError(quick_xml::Error),
    InvalidXmlAttribute(AttrError),
    InvalidInteger,
    InvalidFloat,
    InvalidUtf8,
}

pub ghost enum ParseFailure {
    InvalidRootNode(Seq<char>),
    UnknownNode(Seq<char>),
    FoundDuplicateAttributes,
    MissingAttributes,
    BadAttribute,
    XmlReadError(quick_xml::Error),
    InvalidXmlAttribute(AttrError),
    InvalidInteger,
    InvalidFloat,
    InvalidUtf8,
}

impl View for BilibiliXmlParseError {
    type V = ParseFailure;

    open spec fn view(&self) -> ParseFailure {
        match self {
            BilibiliXmlParseError::InvalidRootNode(name) => ParseFailure::InvalidRootNode(name@),
            BilibiliXmlParseError::UnknownNode(name) => ParseFailure::UnknownNode(name@),
            BilibiliXmlParseError::FoundDuplicateAttributes => ParseFailure::FoundDuplicateAttributes,
            BilibiliXmlParseError::MissingAttributes => ParseFailure::MissingAttributes,
            BilibiliXmlParseError::BadAttribute => ParseFailure::BadAttribute,
            BilibiliXmlParseError::XmlReadError(error) => ParseFailure::XmlReadError(*error),
            BilibiliXmlParseError::InvalidXmlAttribute(error) => ParseFailure::InvalidXmlAttribute(
                *error,
            ),
            BilibiliXmlParseError::InvalidInteger => ParseFailure::InvalidInteger,
            BilibiliXmlParseError::InvalidFloat => ParseFailure::InvalidFloat,
            BilibiliXmlParseError::InvalidUtf8 => ParseFailure::InvalidUtf8,
        }
    }
}

impl BilibiliXmlParseError {
    /// The error in words. Where the error of the reader is inside, its own
    /// words follow the colon.
    pub fn message(&self) -> (text: String)
        ensures
            match self@ {
                ParseFailure::InvalidRootNode(name) => text@ == "Invalid root node: "@ + name,
                ParseFailure::UnknownNode(name) => text@ == "Unknown node: "@ + name,
                ParseFailure::FoundDuplicateAttributes => text@ == "Found duplicate attributes"@,
                ParseFailure::MissingAttributes => text@ == "Missing attributes"@,
                ParseFailure::BadAttribute => text@ == "Bad attributes"@,
                ParseFailure::XmlReadError(_) => text@.len() >= "Failed to parse XML: "@.len()
                    && text@.take("Failed to parse XML: "@.len() as int) == "Failed to parse XML: "@,
                ParseFailure::InvalidXmlAttribute(_) => text@.len() >= "Invalid XML Attribute: "@.len()
                    && text@.take("Invalid XML Attribute: "@.len() as int)
                    == "Invalid XML Attribute: "@,
                ParseFailure::InvalidInteger => text@ == "Invalid integer"@,
                ParseFailure::InvalidFloat => text@ == "Invalid float"@,
                ParseFailure::InvalidUtf8 => text@ == "Invalid UTF-8 in XML"@,
            },
    {
        match self {
            BilibiliXmlParseError::InvalidRootNode(name) => String::from_str("Invalid root node: ").concat(
                name.as_str(),
            ),
            BilibiliXmlParseError::UnknownNode(name) => String::from_str("Unknown node: ").concat(
                name.as_str(),
            ),
            BilibiliXmlParseError::FoundDuplicateAttributes => String::from_str(
                "Found duplicate attributes",
            ),
            BilibiliXmlParseError::MissingAttributes => String::from_str("Missing attributes"),
            BilibiliXmlParseError::BadAttribute => String::from_str("Bad attributes"),
            BilibiliXmlParseError::XmlReadError(error) => String::from_str(
                "Failed to parse XML: ",
            ).concat(xml_error_text(error).as_str()),
            BilibiliXmlParseError::InvalidXmlAttribute(error) => String::from_str(
                "Invalid XML Attribute: ",
            ).concat(attr_error_text(error).as_str()),
            BilibiliXmlParseError::InvalidInteger => String::from_str("Invalid integer"),
            BilibiliXmlParseError::InvalidFloat => String::from_str("Invalid float"),
            BilibiliXmlParseError::InvalidUtf8 => String::from_str("Invalid UTF-8 in XML"),
        }
    }
}

/// Where in the document the parser is.
#[derive(PartialEq, Eq, Structural, Clone, Copy, Debug)]
pub enum BilibiliXmlReaderState {
    OutOfRoot,
    InsideOfRootNode,
    InsideOfMetadataNode,
    InsideOfDanmakuNode,
    Eof,
}

/// What the parser knows after some events.
pub ghost struct ParserView {
    pub state: BilibiliXmlReaderState,
    /// How many elements are open.
    pub depth: nat,
    /// The attribute line of the comment element that is open.
    pub attributes: Option<Seq<u8>>,
    /// The comments read so far, in the order of the document.
    pub comments: Seq<Danmaku>,
}

/// The error that names a tag: an unexpected root, or an element where none
/// may stand. A name that is no UTF-8 cannot be named.
pub open spec fn named(name: Seq<u8>, root: bool) -> ParseFailure {
    if !valid_utf8(name) {
        ParseFailure::InvalidUtf8
    } else if root {
        ParseFailure::InvalidRootNode(decode_utf8(name))
    } else {
        ParseFailure::UnknownNode(decode_utf8(name))
    }
}

/// Looks through the attributes of a comment element in order for `p`.
pub open spec fn scan_attributes(attributes: Seq<Result<(Vec<u8>, Vec<u8>), AttrError>>) -> Result<
    Option<Seq<u8>>,
    ParseFailure,
>
    decreases attributes.len(),
{
    if attributes.len() == 0 {
        Ok(None)
    } else {
        match scan_attributes(attributes.drop_last()) {
            Err(error) => Err(error),
            Ok(found) => match attributes.last() {
                Err(error) => Err(ParseFailure::InvalidXmlAttribute(error)),
                Ok((key, value)) => if key@ != seq![112u8] {
                    Ok(found)
                } else if found is Some {
                    Err(ParseFailure::FoundDuplicateAttributes)
                } else if !valid_utf8(value@) {
                    Err(ParseFailure::InvalidUtf8)
                } else {
                    Ok(Some(value@))
                },
            },
        }
    }
}

pub open spec fn field_failure(error: FieldError) -> ParseFailure {
    match error {
        FieldError::BadAttribute => ParseFailure::BadAttribute,
        FieldError::InvalidInteger => ParseFailure::InvalidInteger,
        FieldError::InvalidFloat => ParseFailure::InvalidFloat,
    }
}

impl ParserView {
    pub open spec fn start() -> ParserView {
        ParserView {
            state: BilibiliXmlReaderState::OutOfRoot,
            depth: 0,
            attributes: None,
            comments: Seq::empty(),
        }
    }

    /// The root is `<i>`; its children are comments `<d p="...">text</d>` or
    /// anything else, which is passed over with all that is in it.
    pub open spec fn opened(self, name: Seq<u8>, attributes: Seq<Result<(Vec<u8>, Vec<u8>), AttrError>>) -> Result<
        ParserView,
        ParseFailure,
    > {
        match self.state {
            BilibiliXmlReaderState::OutOfRoot => if name == seq![105u8] {
                Ok(
                    ParserView {
                        state: BilibiliXmlReaderState::InsideOfRootNode,
                        depth: self.depth + 1,
                        ..self
                    },
                )
            } else {
                Err(named(name, true))
            },
            BilibiliXmlReaderState::InsideOfRootNode => if name == seq![100u8] {
                match scan_attributes(attributes) {
                    Ok(found) => Ok(
                        ParserView {
                            state: BilibiliXmlReaderState::InsideOfDanmakuNode,
                            depth: self.depth + 1,
                            attributes: found,
                            ..self
                        },
                    ),
                    Err(error) => Err(error),
                }
            } else {
                Ok(
                    ParserView {
                        state: BilibiliXmlReaderState::InsideOfMetadataNode,
                        depth: self.depth + 1,
                        ..self
                    },
                )
            },
            BilibiliXmlReaderState::InsideOfMetadataNode => Ok(
                ParserView { depth: self.depth + 1, ..self },
            ),
            _ => Err(named(name, false)),
        }
    }

    pub open spec fn closed(self, name: Seq<u8>) -> Result<ParserView, ParseFailure> {
        match self.state {
            BilibiliXmlReaderState::InsideOfRootNode => if name == seq![105u8] {
                Ok(
                    ParserView {
                        state: BilibiliXmlReaderState::Eof,
                        depth: (self.depth - 1) as nat,
                        ..self
                    },
                )
            } else {
                Err(named(name, false))
            },
            BilibiliXmlReaderState::InsideOfMetadataNode => Ok(
                ParserView {
                    state: if self.depth == 2 {
                        BilibiliXmlReaderState::InsideOfRootNode
                    } else {
                        BilibiliXmlReaderState::InsideOfMetadataNode
                    },
                    depth: (self.depth - 1) as nat,
                    ..self
                },
            ),
            BilibiliXmlReaderState::InsideOfDanmakuNode => if name == seq![100u8] {
                Ok(
                    ParserView {
                        state: BilibiliXmlReaderState::InsideOfRootNode,
                        depth: (self.depth - 1) as nat,
                        attributes: None,
                        ..self
                    },
                )
            } else {
                Err(named(name, false))
            },
            _ => Err(named(name, false)),
        }
    }

    /// Text inside a comment element makes a comment of the element's
    /// attribute line and the text; other text is passed over.
    pub open spec fn texted(self, text: Result<String, quick_xml::Error>) -> Result<ParserView, ParseFailure> {
        if self.state != BilibiliXmlReaderState::InsideOfDanmakuNode {
            Ok(self)
        } else {
            match text {
                Err(error) => Err(ParseFailure::XmlReadError(error)),
                Ok(content) => match self.attributes {
                    None => Err(ParseFailure::MissingAttributes),
                    Some(line) => match attributes_of(line) {
                        Err(error) => Err(field_failure(error)),
                        Ok(read) => Ok(
                            ParserView {
                                attributes: None,
                                comments: self.comments.push(
                                    Danmaku {
                                        time: read.time,
                                        kind: read.kind,
                                        size: read.size,
                                        color: read.color,
                                        content,
                                    },
                                ),
                                ..self
                            },
                        ),
                    },
                },
            }
        }
    }

    /// The parser after one more event.
    pub open spec fn fed(self, input: XmlInput) -> Result<ParserView, ParseFailure> {
        match input {
            XmlInput::Start { name, attributes } => self.opened(name@, attributes@),
            XmlInput::End { name } => self.closed(name@),
            XmlInput::Text(text) => self.texted(text),
            XmlInput::Eof => Ok(self),
            XmlInput::Other => Ok(self),
            XmlInput::Failed(error) => Err(ParseFailure::XmlReadError(error)),
        }
    }

    /// The parser after a run of events, from the start of a document.
    pub open spec fn after(inputs: Seq<XmlInput>) -> Result<ParserView, ParseFailure>
        decreases inputs.len(),
    {
        if inputs.len() == 0 {
            Ok(ParserView::start())
        } else {
            match ParserView::after(inputs.drop_last()) {
                Ok(parser) => parser.fed(inputs.last()),
                Err(error) => Err(error),
            }
        }
    }
}

/// Reads a document event by event.
pub struct BilibiliXmlParser {
    state: BilibiliXmlReaderState,
    depth: u64,
    attributes: Option<Vec<u8>>,
    result: Vec<Danmaku>,
}

impl View for BilibiliXmlParser {
    type V = ParserView;

    closed spec fn view(&self) -> ParserView {
        ParserView {
            state: self.state,
            depth: self.depth as nat,
            attributes: match self.attributes {
                Some(line) => Some(line@),
                None => None,
            },
            comments: self.result@,
        }
    }
}

impl BilibiliXmlParser {
    /// The number of open elements goes with the place in the document.
    pub open spec fn wf(&self) -> bool {
        match self@.state {
            BilibiliXmlReaderState::OutOfRoot => self@.depth == 0,
            BilibiliXmlReaderState::InsideOfRootNode => self@.depth == 1,
            BilibiliXmlReaderState::InsideOfMetadataNode => self@.depth >= 2,
            BilibiliXmlReaderState::InsideOfDanmakuNode => self@.depth == 2,
            BilibiliXmlReaderState::Eof => self@.depth == 0,
        }
    }

    pub fn new() -> (parser: Self)
        ensures
            parser.wf(),
            parser@ == ParserView::start(),
    {
        BilibiliXmlParser {
            state: BilibiliXmlReaderState::OutOfRoot,
            depth: 0,
            attributes: None,
            result: Vec::new(),
        }
    }

    /// How many elements are open.
    pub fn depth(&self) -> (depth: u64)
        ensures
            depth == self@.depth,
    {
        self.depth
    }

    fn name_error(name: &Vec<u8>, root: bool) -> (error: BilibiliXmlParseError)
        ensures
            error@ == named(name@, root),
    {
        match utf8_text(name.as_slice()) {
            Some(name) => if root {
                BilibiliXmlParseError::InvalidRootNode(name)
            } else {
                BilibiliXmlParseError::UnknownNode(name)
            },
            None => BilibiliXmlParseError::InvalidUtf8,
        }
    }

    fn is_name(name: &Vec<u8>, letter: u8) -> (same: bool)
        ensures
            same == (name@ == seq![letter]),
    {
        let same = name.len() == 1 && name[0] == letter;
        proof {
            if same {
                assert(name@ =~= seq![letter]);
            }
        }
        same
    }

    fn scan(attributes: Vec<Result<(Vec<u8>, Vec<u8>), AttrError>>) -> (found: Result<
        Option<Vec<u8>>,
        BilibiliXmlParseError,
    >)
        ensures
            match found {
                Ok(Some(line)) => scan_attributes(attributes@) == Ok::<Option<Seq<u8>>, ParseFailure>(
                    Some(line@),
                ),
                Ok(None) => scan_attributes(attributes@) == Ok::<Option<Seq<u8>>, ParseFailure>(None),
                Err(error) => scan_attributes(attributes@) == Err::<Option<Seq<u8>>, ParseFailure>(
                    error@,
                ),
            },
    {
        let ghost all = attributes@;
        let mut pending = crate::manager::reversed(attributes);
        let mut found: Option<Vec<u8>> = None;
        let ghost mut done: int = 0;
        assert(all.take(0) =~= Seq::empty());
        while pending.len() > 0
            invariant
                all == attributes@,
                0 <= done <= all.len(),
                pending@.len() == all.len() - done,
                forall|j: int| 0 <= j < pending@.len() ==> pending@[j] == all[all.len() - 1 - j],
                match found {
                    Some(line) => scan_attributes(all.take(done)) == Ok::<
                        Option<Seq<u8>>,
                        ParseFailure,
                    >(Some(line@)),
                    None => scan_attributes(all.take(done)) == Ok::<Option<Seq<u8>>, ParseFailure>(
                        None,
                    ),
                },
            decreases pending@.len(),
        {
            let item = pending.pop().unwrap();
            proof {
                assert(item == all[done]);
                assert(all.take(done + 1).drop_last() =~= all.take(done));
                assert(all.take(done + 1).last() == all[done]);
            }
            let ghost before = done;
            proof {
                done = done + 1;
            }
            match item {
                Err(error) => {
                    proof {
                        assert(scan_attributes(all.take(before + 1)) == Err::<
                            Option<Seq<u8>>,
                            ParseFailure,
                        >(ParseFailure::InvalidXmlAttribute(error)));
                        Self::lemma_scan_fails(all, before + 1);
                    }
                    return Err(BilibiliXmlParseError::InvalidXmlAttribute(error));
                },
                Ok((key, value)) => {
                    if Self::is_name(&key, 112) {
                        if found.is_some() {
                            proof {
                                assert(scan_attributes(all.take(before + 1)) == Err::<
                                    Option<Seq<u8>>,
                                    ParseFailure,
                                >(ParseFailure::FoundDuplicateAttributes));
                                Self::lemma_scan_fails(all, before + 1);
                            }
                            return Err(BilibiliXmlParseError::FoundDuplicateAttributes);
                        }
                        if utf8_text(value.as_slice()).is_none() {
                            proof {
                                assert(scan_attributes(all.take(before + 1)) == Err::<
                                    Option<Seq<u8>>,
                                    ParseFailure,
                                >(ParseFailure::InvalidUtf8));
                                Self::lemma_scan_fails(all, before + 1);
                            }
                            return Err(BilibiliXmlParseError::InvalidUtf8);
                        }
                        found = Some(value);
                    }
                },
            }
        }
        assert(all.take(all.len() as int) =~= all);
        Ok(found)
    }

    /// A failure among the first attributes is the failure of all of them.
    proof fn lemma_scan_fails(attributes: Seq<Result<(Vec<u8>, Vec<u8>), AttrError>>, n: int)
        requires
            0 <= n <= attributes.len(),
            scan_attributes(attributes.take(n)) is Err,
        ensures
            scan_attributes(attributes) == scan_attributes(attributes.take(n)),
        decreases attributes.len() - n,
    {
        if n < attributes.len() {
            assert(attributes.take(n + 1).drop_last() =~= attributes.take(n));
            Self::lemma_scan_fails(attributes, n + 1);
        } else {
            assert(attributes.take(n) =~= attributes);
        }
    }

    /// Takes one event of the document in.
    pub fn feed(&mut self, input: XmlInput) -> (outcome: Result<(), BilibiliXmlParseError>)
        requires
            old(self).wf(),
            old(self)@.depth < u64::MAX,
        ensures
            match outcome {
                Ok(()) => old(self)@.fed(input) == Ok::<ParserView, ParseFailure>(final(self)@)
                    && final(self).wf() && final(self)@.depth <= old(self)@.depth + 1,
                Err(error) => old(self)@.fed(input) == Err::<ParserView, ParseFailure>(error@),
            },
    {
        match input {
            XmlInput::Start { name, attributes } => {
                match self.state {
                    BilibiliXmlReaderState::OutOfRoot => {
                        if !Self::is_name(&name, 105) {
                            return Err(Self::name_error(&name, true));
                        }
                        self.state = BilibiliXmlReaderState::InsideOfRootNode;
                    },
                    BilibiliXmlReaderState::InsideOfRootNode => {
                        if Self::is_name(&name, 100) {
                            match Self::scan(attributes) {
                                Ok(found) => {
                                    self.attributes = found;
                                },
                                Err(error) => {
                                    return Err(error);
                                },
                            }
                            self.state = BilibiliXmlReaderState::InsideOfDanmakuNode;
                        } else {
                            self.state = BilibiliXmlReaderState::InsideOfMetadataNode;
                        }
                    },
                    BilibiliXmlReaderState::InsideOfMetadataNode => {},
                    _ => {
                        return Err(Self::name_error(&name, false));
                    },
                }
                self.depth = self.depth + 1;
                Ok(())
            },
            XmlInput::End { name } => {
                match self.state {
                    BilibiliXmlReaderState::InsideOfRootNode => {
                        if !Self::is_name(&name, 105) {
                            return Err(Self::name_error(&name, false));
                        }
                        self.state = BilibiliXmlReaderState::Eof;
                    },
                    BilibiliXmlReaderState::InsideOfMetadataNode => {
                        if self.depth == 2 {
                            self.state = BilibiliXmlReaderState::InsideOfRootNode;
                        }
                    },
                    BilibiliXmlReaderState::InsideOfDanmakuNode => {
                        if !Self::is_name(&name, 100) {
                            return Err(Self::name_error(&name, false));
                        }
                        self.attributes = None;
                        self.state = BilibiliXmlReaderState::InsideOfRootNode;
                    },
                    _ => {
                        return Err(Self::name_error(&name, false));
                    },
                }
                self.depth = self.depth - 1;
                Ok(())
            },
            XmlInput::Text(text) => {
                if self.state == BilibiliXmlReaderState::InsideOfDanmakuNode {
                    let content = match text {
                        Ok(content) => content,
                        Err(error) => {
                            return Err(BilibiliXmlParseError::XmlReadError(error));
                        },
                    };
                    let read = match &self.attributes {
                        Some(line) => parse_attributes(line.as_slice()),
                        None => {
                            return Err(BilibiliXmlParseError::MissingAttributes);
                        },
                    };
                    match read {
                        Ok(read) => {
                            self.attributes = None;
                            self.result.push(
                                Danmaku {
                                    time: read.time,
                                    kind: read.kind,
                                    size: read.size,
                                    color: read.color,
                                    content,
                                },
                            );
                        },
                        Err(FieldError::BadAttribute) => {
                            return Err(BilibiliXmlParseError::BadAttribute);
                        },
                        Err(FieldError::InvalidInteger) => {
                            return Err(BilibiliXmlParseError::InvalidInteger);
                        },
                        Err(FieldError::InvalidFloat) => {
                            return Err(BilibiliXmlParseError::InvalidFloat);
                        },
                    }
                }
                Ok(())
            },
            XmlInput::Eof => Ok(()),
            XmlInput::Other => Ok(()),
            XmlInput::Failed(error) => Err(BilibiliXmlParseError::XmlReadError(error)),
        }
    }

    /// The comments read, as a source.
    pub fn finish(self) -> (source: VecDanmakuSource)
        ensures
            source.comments() == sorted_by_time(self@.comments),
    {
        VecDanmakuSource::new(self.result)
    }
}

/// Once a run of events has failed, the events after it change nothing.
pub proof fn lemma_failure_stays(inputs: Seq<XmlInput>, n: int)
    requires
        0 <= n <= inputs.len(),
        ParserView::after(inputs.take(n)) is Err,
    ensures
        ParserView::after(inputs) == ParserView::after(inputs.take(n)),
    decreases inputs.len() - n,
{
    if n < inputs.len() {
        assert(inputs.take(n + 1).drop_last() =~= inputs.take(n));
        lemma_failure_stays(inputs, n + 1);
    } else {
        assert(inputs.take(n) =~= inputs);
    }
}

/// Reads a Bilibili XML document. The outcome is that of feeding a parser the
/// events that the reader reports for the bytes, up to the end of the document
/// or to the first failure: the comments in the order of their timestamps, or
/// the first failure.
pub fn parse_xml(bytes: &[u8]) -> (parsed: Result<VecDanmakuSource, BilibiliXmlParseError>)
    ensures
        match ParserView::after(xml_events(bytes@)) {
            Ok(parser) => parsed matches Ok(source) && source.comments() == sorted_by_time(
                parser.comments,
            ),
            Err(failure) => parsed matches Err(error) && error@ == failure,
        },
{
    let size: usize = bytes.len();
    let mut reader = open_reader(bytes);
    let mut parser = BilibiliXmlParser::new();
    let ghost all = xml_events(bytes@);
    let ghost mut done: int = 0;
    proof {
        assert(all.take(0) =~= Seq::<XmlInput>::empty());
        assert(all.skip(0) =~= all);
    }
    loop
        invariant
            all == xml_events(bytes@),
            whole_run(all),
            all.len() <= size + 1,
            0 <= done < all.len(),
            reader_events(reader) == all.skip(done),
            parser.wf(),
            parser@.depth <= done,
            ParserView::after(all.take(done)) == Ok::<ParserView, ParseFailure>(parser@),
        decreases all.len() - done,
    {
        let input = next_input(&mut reader);
        proof {
            assert(all.skip(done)[0] == all[done]);
            assert(all.take(done + 1).drop_last() =~= all.take(done));
            assert(all.skip(done).skip(1) =~= all.skip(done + 1));
            if input.ends() {
                assert(all.take(done + 1) =~= all);
            }
        }
        match input {
            XmlInput::Eof => {
                return Ok(parser.finish());
            },
            XmlInput::Failed(error) => {
                return Err(BilibiliXmlParseError::XmlReadError(error));
            },
            input => {
                assert(!all[done].ends());
                assert(done < all.len() - 1) by {
                    if done == all.len() - 1 {
                        assert(all.last() == all[done]);
                    }
                }
                match parser.feed(input) {
                    Ok(()) => {},
                    Err(error) => {
                        proof {
                            lemma_failure_stays(all, done + 1);
                        }
                        return Err(error);
                    },
                }
            },
        }
        proof {
            done = done + 1;
        }
    }
}

/// One element of the protobuf reply, as far as a comment is made of it.
#[derive(Clone, Debug)]
pub struct DanmakuElem {
    /// When the comment appears, in milliseconds.
    pub progress: i32,
    pub mode: i32,
    pub fontsize: i32,
    pub color: u32,
    pub content: String,
}

/// The comment that an element of the reply stands for: a time before the
/// start counts as the start, and the colour keeps its low 24 bits.
pub open spec fn comment_of(elem: DanmakuElem) -> Danmaku {
    Danmaku {
        time: DanmakuTime(
            if elem.progress > 0 {
                elem.progress as u32
            } else {
                0
            },
        ),
        kind: kind_of_mode(elem.mode as int),
        size: size_of_font(elem.fontsize as int),
        color: DanmakuColor::of_code((elem.color % 0x100_0000) as nat),
        content: elem.content,
    }
}

pub fn danmaku_from_elem(elem: DanmakuElem) -> (danmaku: Danmaku)
    ensures
        danmaku == comment_of(elem),
{
    Danmaku {
        time: DanmakuTime::from_millis(
            if elem.progress > 0 {
                elem.progress as u32
            } else {
                0
            },
        ),
        kind: kind_from_mode(elem.mode as i64),
        size: size_from_font(elem.fontsize as i64),
        color: DanmakuColor::from_code_cast(elem.color),
        content: elem.content,
    }
}

/// The source that the elements of a protobuf reply make.
pub fn source_from_elems(elems: Vec<DanmakuElem>) -> (source: VecDanmakuSource)
    ensures
        source.comments() == sorted_by_time(elems@.map_values(|elem: DanmakuElem| comment_of(elem))),
{
    let ghost all = elems@;
    let mut pending = crate::manager::reversed(elems);
    let mut comments: Vec<Danmaku> = Vec::new();
    while pending.len() > 0
        invariant
            pending@.len() <= all.len(),
            comments@.len() == all.len() - pending@.len(),
            forall|j: int| 0 <= j < pending@.len() ==> pending@[j] == all[all.len() - 1 - j],
            forall|j: int| 0 <= j < comments@.len() ==> comments@[j] == comment_of(all[j]),
        decreases pending@.len(),
    {
        let elem = pending.pop().unwrap();
        comments.push(danmaku_from_elem(elem));
    }
    assert(comments@ =~= all.map_values(|elem: DanmakuElem| comment_of(elem)));
    VecDanmakuSource::new(comments)
}

} // verus!
