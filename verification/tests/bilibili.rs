use danmaku_renderer::danmaku::{DanmakuColor, DanmakuSize, DanmakuTime, DanmakuType};
use danmaku_renderer::sources::bilibili::{
    danmaku_from_elem, parse_xml, source_from_elems, BilibiliXmlParseError, BilibiliXmlParser,
    DanmakuElem, EventKind, XmlInput,
};
use danmaku_renderer::sources::fields::{
    find_field, kind_from_mode, parse_attributes, parse_seconds, parse_unsigned, size_from_font,
    FieldError,
};
use danmaku_renderer::sources::DanmakuSource;

const DOCUMENT: &str = r#"<?xml version="1.0" encoding="UTF-8"?>
<i>
  <chatserver>chat.bilibili.com</chatserver>
  <chatid>747529524</chatid>
  <mission>0</mission>
  <maxlimit>100</maxlimit>
  <state>0</state>
  <real_name>0</real_name>
  <source>k-v</source>
  <d p="83.67900,1,25,16777215,1655000001,0,a1b2c3d4,1078000000000000000,10">喜欢这段的吉他</d>
  <d p="12.13900,1,25,16777215,1655000000,0,deadbeef,1077000000000000000,10">kksk</d>
</i>
"#;

#[test]
fn test_read_xml() {
    let source = parse_xml(DOCUMENT.as_bytes()).unwrap();

    let all = source.get_all();
    let mut iter = all.iter();

    let item = iter.next().unwrap();
    assert_eq!(item.time, DanmakuTime::from_millis(12139));
    assert_eq!(item.kind, DanmakuType::Scroll);
    assert_eq!(item.size, DanmakuSize::Regular);
    assert_eq!(item.color, DanmakuColor::from_code(0xFFFFFF));
    assert_eq!(item.content, "kksk");

    let item = iter.next().unwrap();
    assert_eq!(item.time, DanmakuTime::from_millis(83679));
    assert_eq!(item.kind, DanmakuType::Scroll);
    assert_eq!(item.size, DanmakuSize::Regular);
    assert_eq!(item.color, DanmakuColor::from_code(0xFFFFFF));
    assert_eq!(item.content, "喜欢这段的吉他");

    let item = iter.next();
    assert!(item.is_none());
}

#[test]
fn test_read_large_xml() {
    let mut document = String::from("<i><maxlimit>3000</maxlimit>");
    for i in 0..3000u32 {
        document.push_str(&format!(
            "<d p=\"{}.{:03},{},{},{},0,0,0\">comment {} &amp; more</d>",
            (i * 7919) % 600,
            i % 1000,
            1 + i % 6,
            18 + i % 20,
            i * 5003,
            i
        ));
    }
    document.push_str("</i>");
    let source = parse_xml(document.as_bytes()).unwrap();

    let all = source.get_all();
    assert_eq!(all.len(), 3000);
    let mut last = 0;
    for item in all {
        println!("{:?} ({:?}): {}", item.time, item.color, item.content);
        assert!(item.time.as_millis() >= last);
        assert!(item.content.ends_with(" & more"));
        last = item.time.as_millis();
    }
}

fn elem(progress: i32, mode: i32, fontsize: i32, color: u32, content: &str) -> DanmakuElem {
    DanmakuElem { progress, mode, fontsize, color, content: content.to_string() }
}

#[test]
fn test_read_protobuf() {
    let reader = source_from_elems(vec![elem(83679, 1, 25, 16777215, "喜欢这段的吉他")]);

    let all = reader.get_all();
    let mut iter = all.iter();

    let item = iter.next().unwrap();
    assert_eq!(item.time, DanmakuTime::from_millis(83679));
    assert_eq!(item.kind, DanmakuType::Scroll);
    assert_eq!(item.size, DanmakuSize::Regular);
    assert_eq!(item.color, DanmakuColor::from_code(0xFFFFFF));
    assert_eq!(item.content, "喜欢这段的吉他");

    let item = iter.next();
    assert!(item.is_none());
}

#[test]
fn test_read_large_protobuf() {
    let elems = (0..5000i32)
        .map(|i| elem((i * 7919) % 600_000 - 50, i % 8, 20 + i % 10, (i as u32) << 8, "x"))
        .collect::<Vec<_>>();
    let reader = source_from_elems(elems);
    let mut last = 0;
    for item in reader.get_all() {
        println!("{:?} ({:?}): {}", item.time, item.color, item.content);
        assert!(item.time.as_millis() >= last);
        last = item.time.as_millis();
    }
    assert_eq!(reader.get_all().len(), 5000);
}

#[test]
fn proto_elements_are_mapped_field_by_field() {
    let danmaku = danmaku_from_elem(elem(-5, 4, 24, 0xFF123456, "a"));
    assert_eq!(danmaku.time, DanmakuTime::from_millis(0));
    assert_eq!(danmaku.kind, DanmakuType::Bottom);
    assert_eq!(danmaku.size, DanmakuSize::Small);
    assert_eq!(danmaku.color.code(), 0x123456);
    let danmaku = danmaku_from_elem(elem(i32::MAX, 5, 26, 0, "b"));
    assert_eq!(danmaku.time.as_millis(), 0x7FFF_FFFF);
    assert_eq!(danmaku.kind, DanmakuType::Top);
    assert_eq!(danmaku.size, DanmakuSize::Large);
    assert_eq!(danmaku_from_elem(elem(0, 0, 25, 0, "")).kind, DanmakuType::Unknown);
    assert_eq!(danmaku_from_elem(elem(0, -1, 25, 0, "")).kind, DanmakuType::Unknown);
    assert_eq!(danmaku_from_elem(elem(0, 6, 25, 0, "")).kind, DanmakuType::Unknown);
}

#[test]
fn modes_and_sizes() {
    assert_eq!(kind_from_mode(1), DanmakuType::Scroll);
    assert_eq!(kind_from_mode(2), DanmakuType::Scroll);
    assert_eq!(kind_from_mode(3), DanmakuType::Scroll);
    assert_eq!(kind_from_mode(4), DanmakuType::Bottom);
    assert_eq!(kind_from_mode(5), DanmakuType::Top);
    assert_eq!(kind_from_mode(0), DanmakuType::Unknown);
    assert_eq!(kind_from_mode(7), DanmakuType::Unknown);
    assert_eq!(size_from_font(24), DanmakuSize::Small);
    assert_eq!(size_from_font(25), DanmakuSize::Regular);
    assert_eq!(size_from_font(26), DanmakuSize::Large);
    assert_eq!(size_from_font(0), DanmakuSize::Small);
}

fn seconds(text: &str) -> Option<u32> {
    parse_seconds(text.as_bytes(), 0, text.len())
}

fn unsigned(text: &str) -> Option<u32> {
    parse_unsigned(text.as_bytes(), 0, text.len())
}

#[test]
fn seconds_are_read_as_millis() {
    assert_eq!(seconds("12.13900"), Some(12139));
    assert_eq!(seconds("0"), Some(0));
    assert_eq!(seconds("7"), Some(7000));
    assert_eq!(seconds("7."), Some(7000));
    assert_eq!(seconds(".5"), Some(500));
    assert_eq!(seconds("+1.5"), Some(1500));
    assert_eq!(seconds("1.001"), Some(1001));
    assert_eq!(seconds("1.0019"), Some(1001));
    assert_eq!(seconds("0.29"), Some(290));
    assert_eq!(seconds("-3.2"), Some(0));
    assert_eq!(seconds("4294967.295"), Some(u32::MAX));
    assert_eq!(seconds("4294967.296"), Some(u32::MAX));
    assert_eq!(seconds("99999999999999999999999"), Some(u32::MAX));
    assert_eq!(seconds("000012.5"), Some(12500));
}

#[test]
fn seconds_with_an_exponent() {
    assert_eq!(seconds("1e1"), Some(10_000));
    assert_eq!(seconds("1E1"), Some(10_000));
    assert_eq!(seconds("1e+2"), Some(100_000));
    assert_eq!(seconds("1.5e-1"), Some(150));
    assert_eq!(seconds("12345e-3"), Some(12_345));
    assert_eq!(seconds("12345e-7"), Some(1));
    assert_eq!(seconds("12345e-8"), Some(0));
    assert_eq!(seconds("0.0001e4"), Some(1000));
    assert_eq!(seconds(".5e1"), Some(5000));
    assert_eq!(seconds("5.e1"), Some(50_000));
    assert_eq!(seconds("1e0"), Some(1000));
    assert_eq!(seconds("1e-0"), Some(1000));
    assert_eq!(seconds("4e6"), Some(4_000_000_000));
    assert_eq!(seconds("5e6"), Some(u32::MAX));
    assert_eq!(seconds("1e100"), Some(u32::MAX));
    assert_eq!(seconds("0e100"), Some(0));
    assert_eq!(seconds("1e-100"), Some(0));
    assert_eq!(seconds("1e99999999999999999999999999999999999999999"), Some(u32::MAX));
    assert_eq!(seconds("0e99999999999999999999999999999999999999999"), Some(0));
    assert_eq!(seconds("1e-99999999999999999999999999999999999999999"), Some(0));
    assert_eq!(seconds("-1e1"), Some(0));
    assert_eq!(seconds("1e"), None);
    assert_eq!(seconds("1e+"), None);
    assert_eq!(seconds("e1"), None);
    assert_eq!(seconds(".e1"), None);
    assert_eq!(seconds("1e1e1"), None);
    assert_eq!(seconds("1e1.5"), None);
    assert_eq!(seconds("1e--1"), None);
}

#[test]
fn seconds_in_words() {
    assert_eq!(seconds("inf"), Some(u32::MAX));
    assert_eq!(seconds("+inf"), Some(u32::MAX));
    assert_eq!(seconds("INF"), Some(u32::MAX));
    assert_eq!(seconds("infinity"), Some(u32::MAX));
    assert_eq!(seconds("Infinity"), Some(u32::MAX));
    assert_eq!(seconds("-inf"), Some(0));
    assert_eq!(seconds("-infinity"), Some(0));
    assert_eq!(seconds("nan"), Some(0));
    assert_eq!(seconds("NaN"), Some(0));
    assert_eq!(seconds("-nan"), Some(0));
    assert_eq!(seconds("in"), None);
    assert_eq!(seconds("infinit"), None);
    assert_eq!(seconds("infinityy"), None);
    assert_eq!(seconds("nanx"), None);
    assert_eq!(seconds("iNf"), Some(u32::MAX));
    assert_eq!(seconds("1nf"), None);
    assert_eq!(seconds("i.f"), None);
}

#[test]
fn seconds_that_are_no_number() {
    assert_eq!(seconds(""), None);
    assert_eq!(seconds("."), None);
    assert_eq!(seconds("+"), None);
    assert_eq!(seconds("-"), None);
    assert_eq!(seconds("1.2.3"), None);
    assert_eq!(seconds("1,5"), None);
    assert_eq!(seconds("abc"), None);
    assert_eq!(seconds(" 1"), None);
    assert_eq!(seconds("1 "), None);
    assert_eq!(seconds("--1"), None);
    assert_eq!(seconds("1.5x"), None);
}

#[test]
fn unsigned_fields() {
    assert_eq!(unsigned("0"), Some(0));
    assert_eq!(unsigned("25"), Some(25));
    assert_eq!(unsigned("+25"), Some(25));
    assert_eq!(unsigned("0016777215"), Some(16777215));
    assert_eq!(unsigned("4294967295"), Some(u32::MAX));
    assert_eq!(unsigned("4294967296"), None);
    assert_eq!(unsigned("99999999999999999999"), None);
    assert_eq!(unsigned(""), None);
    assert_eq!(unsigned("+"), None);
    assert_eq!(unsigned("-1"), None);
    assert_eq!(unsigned("1.0"), None);
    assert_eq!(unsigned("12a"), None);
    assert_eq!(unsigned("１２"), None);
}

#[test]
fn fields_are_cut_at_commas() {
    let line = b"ab,,c,";
    assert_eq!(find_field(line, 0), Some((0, 2)));
    assert_eq!(find_field(line, 1), Some((3, 3)));
    assert_eq!(find_field(line, 2), Some((4, 5)));
    assert_eq!(find_field(line, 3), Some((6, 6)));
    assert_eq!(find_field(line, 4), None);
    assert_eq!(find_field(b"", 0), Some((0, 0)));
    assert_eq!(find_field(b"", 1), None);
}

#[test]
fn attribute_lines() {
    let read = parse_attributes(b"1.5,4,30,255,ignored,also ignored").unwrap();
    assert_eq!(read.time, DanmakuTime::from_millis(1500));
    assert_eq!(read.kind, DanmakuType::Bottom);
    assert_eq!(read.size, DanmakuSize::Large);
    assert_eq!(read.color, DanmakuColor::from_rgb(0, 0, 255));
    let read = parse_attributes(b"0,9,25,4294967295").unwrap();
    assert_eq!(read.kind, DanmakuType::Unknown);
    assert_eq!(read.color.code(), 0xFFFFFF);
    assert_eq!(parse_attributes(b"1.5,4,30"), Err(FieldError::BadAttribute));
    assert_eq!(parse_attributes(b"1.5"), Err(FieldError::BadAttribute));
    assert_eq!(parse_attributes(b""), Err(FieldError::InvalidFloat));
    assert_eq!(parse_attributes(b"x,1,25,0"), Err(FieldError::InvalidFloat));
    assert_eq!(parse_attributes(b"1e1,1,25,0").unwrap().time, DanmakuTime::from_millis(10_000));
    assert_eq!(parse_attributes(b"1,x,25,0"), Err(FieldError::InvalidInteger));
    assert_eq!(parse_attributes(b"1,1,x"), Err(FieldError::InvalidInteger));
    assert_eq!(parse_attributes(b"1,1,25,-1"), Err(FieldError::InvalidInteger));
    // The fifth field and those behind it are not looked at.
    assert!(parse_attributes(b"1,1,25,0,\xFF\xFE").is_ok());
}

fn failure(document: &[u8]) -> BilibiliXmlParseError {
    match parse_xml(document) {
        Ok(_) => panic!("the document was read"),
        Err(error) => error,
    }
}

#[test]
fn wrong_root_is_named() {
    let error = failure(b"<xml><d p=\"1,1,25,0\">a</d></xml>");
    assert!(matches!(&error, BilibiliXmlParseError::InvalidRootNode(name) if name == "xml"));
    assert_eq!(error.message(), "Invalid root node: xml");
}

#[test]
fn element_inside_a_comment_is_unknown() {
    let error = failure(b"<i><d p=\"1,1,25,0\"><b>a</b></d></i>");
    assert!(matches!(&error, BilibiliXmlParseError::UnknownNode(name) if name == "b"));
    assert_eq!(error.message(), "Unknown node: b");
}

#[test]
fn element_behind_the_root_is_unknown() {
    let error = failure(b"<i></i><j></j>");
    assert!(matches!(&error, BilibiliXmlParseError::UnknownNode(name) if name == "j"));
}

#[test]
fn comment_without_attributes_is_an_error() {
    let error = failure(b"<i><d>text</d></i>");
    assert!(matches!(error, BilibiliXmlParseError::MissingAttributes));
    assert_eq!(error.message(), "Missing attributes");
    let error = failure(b"<i><d q=\"1,1,25,0\">text</d></i>");
    assert!(matches!(error, BilibiliXmlParseError::MissingAttributes));
}

#[test]
fn attributes_do_not_outlive_their_element() {
    let error = failure(b"<i><d p=\"1,1,25,0\"></d><d>text</d></i>");
    assert!(matches!(error, BilibiliXmlParseError::MissingAttributes));
    let source = parse_xml(b"<i><d p=\"1,1,25,0\"></d><d p=\"2,1,25,0\">b</d></i>").unwrap();
    assert_eq!(source.get_all().len(), 1);
    assert_eq!(source.get_all()[0].time, DanmakuTime::from_millis(2000));
}

#[test]
fn short_attribute_line_is_bad() {
    let error = failure(b"<i><d p=\"1.0,1,25\">text</d></i>");
    assert!(matches!(error, BilibiliXmlParseError::BadAttribute));
    assert_eq!(error.message(), "Bad attributes");
}

#[test]
fn malformed_numbers_are_reported() {
    let error = failure(b"<i><d p=\"1.0,one,25,0\">text</d></i>");
    assert!(matches!(error, BilibiliXmlParseError::InvalidInteger));
    assert_eq!(error.message(), "Invalid integer");
    let error = failure(b"<i><d p=\"soon,1,25,0\">text</d></i>");
    assert!(matches!(error, BilibiliXmlParseError::InvalidFloat));
    assert_eq!(error.message(), "Invalid float");
}

#[test]
fn malformed_xml_is_reported() {
    let error = failure(b"<i><d p=\"1,1,25,0\">text</i>");
    assert!(matches!(error, BilibiliXmlParseError::XmlReadError(_)));
    assert!(error.message().starts_with("Failed to parse XML: "));
    let error = failure(b"<i><d p=\"1,1,25,0\">a &unknown; b</d></i>");
    assert!(matches!(error, BilibiliXmlParseError::XmlReadError(_)));
}

#[test]
fn malformed_attribute_is_reported() {
    let error = failure(b"<i><d p=1,1,25,0>text</d></i>");
    assert!(matches!(error, BilibiliXmlParseError::InvalidXmlAttribute(_)));
    assert!(error.message().starts_with("Invalid XML Attribute: "));
    // The reader itself finds a key that comes twice.
    let error = failure(b"<i><d p=\"1,1,25,0\" p=\"2,1,25,0\">text</d></i>");
    assert!(matches!(error, BilibiliXmlParseError::InvalidXmlAttribute(_)));
}

#[test]
fn attribute_that_is_no_utf8_is_reported() {
    let error = failure(b"<i><d p=\"1,1,25,0,\xFF\">text</d></i>");
    assert!(matches!(error, BilibiliXmlParseError::InvalidUtf8));
    assert_eq!(error.message(), "Invalid UTF-8 in XML");
}

#[test]
fn parser_reports_a_second_attribute_line() {
    let mut parser = BilibiliXmlParser::new();
    parser.feed(XmlInput::Start { name: b"i".to_vec(), attributes: Vec::new() }).unwrap();
    let outcome = parser.feed(XmlInput::Start {
        name: b"d".to_vec(),
        attributes: vec![
            Ok((b"p".to_vec(), b"1,1,25,0".to_vec())),
            Ok((b"q".to_vec(), b"x".to_vec())),
            Ok((b"p".to_vec(), b"2,1,25,0".to_vec())),
        ],
    });
    let error = outcome.unwrap_err();
    assert!(matches!(error, BilibiliXmlParseError::FoundDuplicateAttributes));
    assert_eq!(error.message(), "Found duplicate attributes");
}

#[test]
fn parser_follows_the_document() {
    let mut parser = BilibiliXmlParser::new();
    assert_eq!(parser.depth(), 0);
    parser.feed(XmlInput::Other).unwrap();
    parser.feed(XmlInput::Text(Ok("  ".to_string()))).unwrap();
    parser.feed(XmlInput::Start { name: b"i".to_vec(), attributes: Vec::new() }).unwrap();
    assert_eq!(parser.depth(), 1);
    parser.feed(XmlInput::Start { name: b"meta".to_vec(), attributes: Vec::new() }).unwrap();
    parser.feed(XmlInput::Start { name: b"d".to_vec(), attributes: Vec::new() }).unwrap();
    assert_eq!(parser.depth(), 3);
    parser.feed(XmlInput::Text(Ok("not a comment".to_string()))).unwrap();
    parser.feed(XmlInput::End { name: b"d".to_vec() }).unwrap();
    parser.feed(XmlInput::End { name: b"meta".to_vec() }).unwrap();
    parser
        .feed(XmlInput::Start {
            name: b"d".to_vec(),
            attributes: vec![Ok((b"p".to_vec(), b"3.25,5,18,65280".to_vec()))],
        })
        .unwrap();
    parser.feed(XmlInput::Text(Ok("a comment".to_string()))).unwrap();
    parser.feed(XmlInput::End { name: b"d".to_vec() }).unwrap();
    parser.feed(XmlInput::End { name: b"i".to_vec() }).unwrap();
    assert_eq!(parser.depth(), 0);
    let error = parser.feed(XmlInput::End { name: b"i".to_vec() }).unwrap_err();
    assert!(matches!(error, BilibiliXmlParseError::UnknownNode(name) if name == "i"));
    let source = parser.finish();
    let all = source.get_all();
    assert_eq!(all.len(), 1);
    assert_eq!(all[0].time, DanmakuTime::from_millis(3250));
    assert_eq!(all[0].kind, DanmakuType::Top);
    assert_eq!(all[0].size, DanmakuSize::Small);
    assert_eq!(all[0].color, DanmakuColor::from_rgb(0, 255, 0));
    assert_eq!(all[0].content, "a comment");
}

#[test]
fn text_is_unescaped() {
    let source = parse_xml("<i><d p=\"1,1,25,0\">1 &lt; 2 &amp;&#x20;3 &gt; 2</d></i>".as_bytes()).unwrap();
    assert_eq!(source.get_all()[0].content, "1 < 2 & 3 > 2");
}

#[test]
fn empty_documents_have_no_comments() {
    assert!(parse_xml(b"").unwrap().get_all().is_empty());
    assert!(parse_xml(b"<i></i>").unwrap().get_all().is_empty());
    assert!(parse_xml(b"<i><d p=\"1,1,25,0\"/></i>").unwrap().get_all().is_empty());
}

#[test]
fn document_round_trips() {
    let comments = vec![
        (1500u32, 1u32, 25u32, 0xFFFFFFu32, "first"),
        (1500, 4, 18, 0x00FF00, "second <&> \"quoted\""),
        (999, 5, 36, 0x123456, "third"),
        (0, 1, 25, 0, "零"),
    ];
    let mut document = String::from("<?xml version=\"1.0\"?><i>");
    for (millis, mode, size, color, text) in &comments {
        let escaped = text.replace('&', "&amp;").replace('<', "&lt;").replace('>', "&gt;");
        document.push_str(&format!(
            "<d p=\"{}.{:03},{},{},{}\">{}</d>",
            millis / 1000,
            millis % 1000,
            mode,
            size,
            color,
            escaped
        ));
    }
    document.push_str("</i>");
    let source = parse_xml(document.as_bytes()).unwrap();
    let mut expected = comments.clone();
    expected.sort_by_key(|item| item.0);
    let all = source.get_all();
    assert_eq!(all.len(), expected.len());
    for (item, (millis, mode, size, color, text)) in all.iter().zip(expected) {
        assert_eq!(item.time.as_millis(), millis);
        assert_eq!(item.kind, kind_from_mode(mode as i64));
        assert_eq!(item.size, size_from_font(size as i64));
        assert_eq!(item.color.code(), color);
        assert_eq!(item.content, text);
    }
}

#[test]
fn events_are_put_together_from_their_parts() {
    let attributes = || vec![Ok((b"p".to_vec(), b"1,1,25,0".to_vec()))];
    let text = || Some(Ok("text".to_string()));
    match XmlInput::from_parts(EventKind::Start, b"d".to_vec(), attributes(), text()) {
        XmlInput::Start { name, attributes } => {
            assert_eq!(name, b"d");
            assert_eq!(attributes.len(), 1);
            assert_eq!(attributes[0].as_ref().unwrap().1, b"1,1,25,0");
        }
        other => panic!("unexpected {:?}", other),
    }
    match XmlInput::from_parts(EventKind::End, b"i".to_vec(), attributes(), text()) {
        XmlInput::End { name } => assert_eq!(name, b"i"),
        other => panic!("unexpected {:?}", other),
    }
    match XmlInput::from_parts(EventKind::Text, Vec::new(), Vec::new(), text()) {
        XmlInput::Text(Ok(content)) => assert_eq!(content, "text"),
        other => panic!("unexpected {:?}", other),
    }
    assert!(matches!(
        XmlInput::from_parts(EventKind::Text, Vec::new(), Vec::new(), None),
        XmlInput::Other
    ));
    assert!(matches!(
        XmlInput::from_parts(EventKind::Eof, b"d".to_vec(), attributes(), text()),
        XmlInput::Eof
    ));
    assert!(matches!(
        XmlInput::from_parts(EventKind::Other, b"d".to_vec(), attributes(), text()),
        XmlInput::Other
    ));
}

#[test]
fn written_document_is_read_back() {
    let comments = vec![
        (83_679u32, 1u32, DanmakuType::Scroll, 25u32, DanmakuSize::Regular, 0xFFFFFFu32, "a < b & c"),
        (0, 4, DanmakuType::Bottom, 18, DanmakuSize::Small, 0, "first"),
        (12_139, 5, DanmakuType::Top, 36, DanmakuSize::Large, 0x123456, "\"quoted\" > plain"),
        (4_294_967_295, 3, DanmakuType::Scroll, 25, DanmakuSize::Regular, 0xABCDEF, "last"),
        (1_001, 9, DanmakuType::Unknown, 24, DanmakuSize::Small, 255, "x"),
    ];
    let mut document = String::from("<i>");
    for (millis, mode, _, font, _, code, text) in &comments {
        let text = text.replace('&', "&amp;").replace('<', "&lt;").replace('>', "&gt;");
        document.push_str(&format!(
            "<d p=\"{}.{:03},{},{},{}\">{}</d>",
            millis / 1000,
            millis % 1000,
            mode,
            font,
            code,
            text
        ));
    }
    document.push_str("</i>");
    let source = parse_xml(document.as_bytes()).unwrap();
    let read = source.get_all();
    let mut sorted = comments.clone();
    sorted.sort_by_key(|comment| comment.0);
    assert_eq!(read.len(), sorted.len());
    for (item, (millis, _, kind, _, size, code, text)) in read.iter().zip(sorted.iter()) {
        assert_eq!(item.time.as_millis(), *millis);
        assert_eq!(item.kind, *kind);
        assert_eq!(item.size, *size);
        assert_eq!(item.color.code(), *code);
        assert_eq!(item.content, *text);
    }
}
