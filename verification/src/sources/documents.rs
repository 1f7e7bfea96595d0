//! Documents that are written from comments, and what is read back from them.

use super::bilibili::{
    scan_attributes, BilibiliXmlReaderState, ParseFailure, ParserView, XmlInput,
};
use super::fields::{
    color_of, digits_of, is_digit, kind_of_mode, lemma_digits_of, lemma_line_round_trip, line_of,
    seconds_text, size_of_font,
};
use crate::danmaku::{Danmaku, DanmakuColor, DanmakuTime};
use vstd::prelude::*;
use vstd::utf8::{
    is_leading_byte_width_1, partial_valid_utf8, partial_valid_utf8_extend_ascii_block, valid_utf8,
};

verus! {

/// The attribute line of a comment, with the numbers that are written for
/// its mode and its font size.
pub open spec fn comment_line(comment: Danmaku, mode: u32, font: u32) -> Seq<u8> {
    line_of(comment.time.0, mode, font, comment.color@ as u32)
}

/// Whether the numbers stand for the kind and the size of the comment.
pub open spec fn codes_fit(comment: Danmaku, mode: u32, font: u32) -> bool {
    &&& kind_of_mode(mode as int) == comment.kind
    &&& size_of_font(font as int) == comment.size
    &&& comment.color@ < 0x100_0000
}

/// Whether the events are those of a document that is written from the
/// comments: the root `<i>`, then for each comment an element `<d>` whose only
/// attribute is `p` with the comment's line, and in it the comment's text,
/// then the end of the root and the end of the document.
pub open spec fn written(events: Seq<XmlInput>, comments: Seq<Danmaku>, modes: Seq<u32>, fonts: Seq<u32>) -> bool {
    &&& modes.len() == comments.len()
    &&& fonts.len() == comments.len()
    &&& events.len() == 3 * comments.len() + 3
    &&& events[0] matches XmlInput::Start { name, .. } && name@ == seq![105u8]
    &&& forall|i: int|
        0 <= i < comments.len() ==> {
            &&& codes_fit(comments[i], modes[i], fonts[i])
            &&& (#[trigger] events[3 * i + 1]) matches XmlInput::Start { name, attributes } && name@
                == seq![100u8] && attributes@.len() == 1 && (attributes@[0] matches Ok((key, value))
                && key@ == seq![112u8] && value@ == comment_line(comments[i], modes[i], fonts[i]))
            &&& events[3 * i + 2] == XmlInput::Text(Ok(comments[i].content))
            &&& events[3 * i + 3] matches XmlInput::End { name } && name@ == seq![100u8]
        }
    &&& events[(3 * comments.len() + 1) as int] matches XmlInput::End { name } && name@ == seq![105u8]
    &&& events[(3 * comments.len() + 2) as int] is Eof
}

/// An attribute line is text.
pub proof fn lemma_line_is_text(millis: u32, mode: u32, font: u32, code: u32)
    ensures
        valid_utf8(line_of(millis, mode, font, code)),
{
    let line = line_of(millis, mode, font, code);
    lemma_digits_of((millis / 1000) as nat);
    lemma_digits_of(mode as nat);
    lemma_digits_of(font as nat);
    lemma_digits_of(code as nat);
    let time = seconds_text(millis);
    let whole = digits_of((millis / 1000) as nat);
    let first = digits_of(mode as nat);
    let second = digits_of(font as nat);
    let third = digits_of(code as nat);
    assert forall|i: int| 0 <= i < line.len() implies #[trigger] is_leading_byte_width_1(line[i]) by {
        if i < whole.len() {
            assert(line[i] == whole[i]);
            assert(is_digit(whole[i]));
        } else if i < time.len() {
        } else if i == time.len() {
        } else if i < time.len() + 1 + first.len() {
            assert(line[i] == first[i - time.len() - 1]);
            assert(is_digit(first[i - time.len() - 1]));
        } else if i == time.len() + 1 + first.len() {
        } else if i < time.len() + 1 + first.len() + 1 + second.len() {
            assert(line[i] == second[i - time.len() - first.len() - 2]);
            assert(is_digit(second[i - time.len() - first.len() - 2]));
        } else if i == time.len() + 1 + first.len() + 1 + second.len() {
        } else {
            assert(line[i] == third[i - time.len() - first.len() - second.len() - 3]);
            assert(is_digit(third[i - time.len() - first.len() - second.len() - 3]));
        }
    }
    assert(line.subrange(0, 0) =~= Seq::<u8>::empty());
    assert(partial_valid_utf8(line, 0));
    partial_valid_utf8_extend_ascii_block(line, 0, line.len() as int);
    assert(line.subrange(0, line.len() as int) =~= line);
}

/// The parser inside the root, between two comments.
pub open spec fn between(comments: Seq<Danmaku>) -> ParserView {
    ParserView {
        state: BilibiliXmlReaderState::InsideOfRootNode,
        depth: 1,
        attributes: None,
        comments,
    }
}

/// The parser inside a comment element whose text is still to come.
pub open spec fn inside(comments: Seq<Danmaku>, line: Option<Seq<u8>>) -> ParserView {
    ParserView {
        state: BilibiliXmlReaderState::InsideOfDanmakuNode,
        depth: 2,
        attributes: line,
        comments,
    }
}

/// One more event is one more step of the parser.
proof fn lemma_one_more(events: Seq<XmlInput>, count: int)
    requires
        0 <= count < events.len(),
    ensures
        ParserView::after(events.take(count + 1)) == match ParserView::after(events.take(count)) {
            Ok(parser) => parser.fed(events[count]),
            Err(error) => Err(error),
        },
{
    assert(events.take(count + 1).drop_last() =~= events.take(count));
    assert(events.take(count + 1).last() == events[count]);
}

/// The opening tag of a comment, with the line as its only attribute.
proof fn lemma_comment_opens(comments: Seq<Danmaku>, input: XmlInput, line: Seq<u8>)
    requires
        valid_utf8(line),
        input matches XmlInput::Start { name, attributes } && name@ == seq![100u8]
            && attributes@.len() == 1 && (attributes@[0] matches Ok((key, value)) && key@
            == seq![112u8] && value@ == line),
    ensures
        between(comments).fed(input) == Ok::<ParserView, ParseFailure>(inside(comments, Some(line))),
{
    reveal_with_fuel(scan_attributes, 2);
    let attributes = input->Start_attributes@;
    assert(attributes.drop_last() =~= Seq::empty());
    assert(attributes.last() == attributes[0]);
    assert(seq![100u8] != seq![105u8]) by {
        assert(seq![100u8][0] != seq![105u8][0]);
    }
}

/// The text of a comment, after its line.
proof fn lemma_comment_is_told(comments: Seq<Danmaku>, comment: Danmaku, mode: u32, font: u32)
    requires
        codes_fit(comment, mode, font),
    ensures
        inside(comments, Some(comment_line(comment, mode, font))).fed(
            XmlInput::Text(Ok(comment.content)),
        ) == Ok::<ParserView, ParseFailure>(inside(comments.push(comment), None)),
{
    lemma_line_round_trip(comment.time.0, mode, font, comment.color@ as u32);
    let read = Danmaku {
        time: DanmakuTime(comment.time.0),
        kind: comment.kind,
        size: comment.size,
        color: color_of(comment.color@ as u32),
        content: comment.content,
    };
    assert(read.color == comment.color) by {
        DanmakuColor::lemma_of_code(comment.color@);
        read.color.lemma_same_code(comment.color);
    }
    assert(read == comment);
}

/// The closing tag of a comment.
proof fn lemma_comment_closes(comments: Seq<Danmaku>, input: XmlInput)
    requires
        input matches XmlInput::End { name } && name@ == seq![100u8],
    ensures
        inside(comments, None).fed(input) == Ok::<ParserView, ParseFailure>(between(comments)),
{
}

/// The events of the first comments add those comments to those read.
proof fn lemma_comments_are_read(
    events: Seq<XmlInput>,
    comments: Seq<Danmaku>,
    modes: Seq<u32>,
    fonts: Seq<u32>,
    done: int,
)
    requires
        written(events, comments, modes, fonts),
        0 <= done <= comments.len(),
    ensures
        ParserView::after(events.take(3 * done + 1)) == Ok::<ParserView, ParseFailure>(
            between(comments.take(done)),
        ),
    decreases done,
{
    if done == 0 {
        assert(events.take(0) =~= Seq::<XmlInput>::empty());
        lemma_one_more(events, 0);
        assert(comments.take(0) =~= Seq::<Danmaku>::empty());
        assert(ParserView::start().fed(events[0]) == Ok::<ParserView, ParseFailure>(
            between(Seq::empty()),
        ));
    } else {
        let i = done - 1;
        lemma_comments_are_read(events, comments, modes, fonts, i);
        let comment = comments[i];
        let line = comment_line(comment, modes[i], fonts[i]);
        let so_far = comments.take(i);
        lemma_line_is_text(comment.time.0, modes[i], fonts[i], comment.color@ as u32);
        assert(codes_fit(comments[i], modes[i], fonts[i]));
        lemma_one_more(events, 3 * i + 1);
        lemma_comment_opens(so_far, events[3 * i + 1], line);
        lemma_one_more(events, 3 * i + 2);
        lemma_comment_is_told(so_far, comment, modes[i], fonts[i]);
        lemma_one_more(events, 3 * i + 3);
        lemma_comment_closes(so_far.push(comment), events[3 * i + 3]);
        assert(so_far.push(comment) =~= comments.take(done));
        assert(3 * i + 3 + 1 == 3 * done + 1);
    }
}

/// What is written is read back. Feeding a parser the events of a document
/// that is written from comments gives those comments, in the order in which
/// they were written, and ends where a document ends.
pub proof fn lemma_written_is_read(
    events: Seq<XmlInput>,
    comments: Seq<Danmaku>,
    modes: Seq<u32>,
    fonts: Seq<u32>,
)
    requires
        written(events, comments, modes, fonts),
    ensures
        ParserView::after(events) == Ok::<ParserView, ParseFailure>(
            ParserView {
                state: BilibiliXmlReaderState::Eof,
                depth: 0,
                attributes: None,
                comments,
            },
        ),
{
    let n = comments.len() as int;
    lemma_comments_are_read(events, comments, modes, fonts, n);
    assert(comments.take(n) =~= comments);
    lemma_one_more(events, 3 * n + 1);
    lemma_one_more(events, 3 * n + 2);
    assert(events.take(3 * n + 3) =~= events);
    assert(seq![105u8] != seq![100u8]) by {
        assert(seq![105u8][0] != seq![100u8][0]);
    }
}

} // verus!
