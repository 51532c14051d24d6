use htmlparser::decoder::{decode_at, Decoded};
use htmlparser::element::{HtmlAttributes, HtmlElementName};
use htmlparser::text::{split_attribute, trimmed};
use htmlparser::{HtmlEvent, HtmlParser, HtmlParserContext, SliceSource};

#[derive(Debug, PartialEq)]
enum Ev {
    Open(String, Vec<(String, String)>),
    Close(String),
    Text(String),
    End,
}

fn attrs_of(a: &HtmlAttributes) -> Vec<(String, String)> {
    let mut out = Vec::new();
    let mut i = 0;
    while let Some((k, v)) = a.entry(i) {
        out.push((k.clone(), v.clone()));
        i += 1;
    }
    out.sort();
    out
}

fn simplify(e: HtmlEvent) -> Ev {
    match e {
        HtmlEvent::HtmlElementOpened { opened_element } => Ev::Open(
            opened_element.name.to_str().to_string(),
            attrs_of(&opened_element.attributes),
        ),
        HtmlEvent::HtmlElementClosed { closed_element } => {
            Ev::Close(closed_element.name.to_str().to_string())
        }
        HtmlEvent::TextContent(t) => Ev::Text(t),
        HtmlEvent::HtmlDocumentEnd => Ev::End,
    }
}

fn events_of_bytes(bytes: &[u8]) -> Vec<Ev> {
    let mut parser = HtmlParser::new(SliceSource::new(bytes.to_vec()));
    let mut out = Vec::new();
    loop {
        let e = simplify(parser.next().unwrap());
        let end = e == Ev::End;
        out.push(e);
        if end {
            return out;
        }
    }
}

fn events_of(text: &str) -> Vec<Ev> {
    events_of_bytes(text.as_bytes())
}

fn open(n: &str) -> Ev {
    Ev::Open(n.to_string(), vec![])
}

fn close(n: &str) -> Ev {
    Ev::Close(n.to_string())
}

fn text(t: &str) -> Ev {
    Ev::Text(t.to_string())
}

#[test]
fn nested_pairs_close_in_reverse_order() {
    assert_eq!(
        events_of("<div><ul><li></li></ul><p></p></div>"),
        vec![
            open("div"),
            open("ul"),
            open("li"),
            close("li"),
            close("ul"),
            open("p"),
            close("p"),
            close("div"),
            Ev::End
        ]
    );
}

#[test]
fn quoted_value_keeps_its_spaces() {
    assert_eq!(
        events_of("<div class=\"test test_eq\" data-value=\"test\"></div>"),
        vec![
            Ev::Open(
                "div".to_string(),
                vec![
                    ("class".to_string(), "test test_eq".to_string()),
                    ("data-value".to_string(), "test".to_string())
                ]
            ),
            close("div"),
            Ev::End
        ]
    );
}

#[test]
fn unquoted_value_ends_at_a_space() {
    assert_eq!(
        events_of("<div class=a b></div>"),
        vec![
            Ev::Open(
                "div".to_string(),
                vec![("b".to_string(), String::new()), ("class".to_string(), "a".to_string())]
            ),
            close("div"),
            Ev::End
        ]
    );
}

#[test]
fn duplicate_attribute_last_wins() {
    assert_eq!(
        events_of("<a href=\"x\" href=\"y\"></a>"),
        vec![
            Ev::Open("a".to_string(), vec![("href".to_string(), "y".to_string())]),
            close("a"),
            Ev::End
        ]
    );
}

#[test]
fn text_is_trimmed_and_blank_text_dropped() {
    assert_eq!(
        events_of("<p>   </p><p>\n  two  words \t</p>"),
        vec![open("p"), close("p"), open("p"), text("two  words"), close("p"), Ev::End]
    );
}

#[test]
fn script_body_is_one_verbatim_text() {
    assert_eq!(
        events_of("<script>if (1 < 2) { console.log('test'); }</script>"),
        vec![
            open("script"),
            text("if (1 < 2) { console.log('test'); }"),
            close("script"),
            Ev::End
        ]
    );
}

#[test]
fn style_body_keeps_tags_as_text() {
    assert_eq!(
        events_of("<style> a > b <p> </style><p>x</p>"),
        vec![open("style"), text("a > b <p>"), close("style"), open("p"), text("x"), close("p"), Ev::End]
    );
}

#[test]
fn entry_document_gives_eight_events() {
    let events = events_of("<div class=\"test test_eq\" data-value=\"test\"><p><span>text content</span></p></div>");
    assert_eq!(events.len(), 8);
    assert_eq!(events[3], text("text content"));
    assert_eq!(events[7], Ev::End);
}

#[test]
fn document_end_repeats() {
    let mut parser = HtmlParser::new(SliceSource::new(b"<p>x</p>".to_vec()));
    let mut seen = 0;
    while simplify(parser.next().unwrap()) != Ev::End {
        seen += 1;
    }
    assert_eq!(seen, 3);
    for _ in 0..3 {
        assert_eq!(simplify(parser.next().unwrap()), Ev::End);
    }
}

#[test]
fn unknown_tag_is_dropped() {
    assert_eq!(
        events_of("<div><foobarbaz x=\"1\">hello</foobarbaz><p>after</p></div>"),
        vec![
            open("div"),
            text("hello"),
            open("p"),
            text("after"),
            close("p"),
            close("div"),
            Ev::End
        ]
    );
}

#[test]
fn tag_names_ignore_ascii_case() {
    assert_eq!(
        events_of("<!DOCTYPE html><DIV></Div>"),
        vec![
            Ev::Open("!doctype".to_string(), vec![("html".to_string(), String::new())]),
            open("div"),
            close("div"),
            Ev::End
        ]
    );
}

#[test]
fn multibyte_characters_across_reads() {
    assert_eq!(
        events_of("<p>zażółć gęślą jaźń €𝄞</p>"),
        vec![open("p"), text("zażółć gęślą jaźń €𝄞"), close("p"), Ev::End]
    );
}

#[test]
fn invalid_bytes_become_replacement_characters() {
    assert_eq!(
        events_of_bytes(b"<p>a\xffb\xc3</p>"),
        vec![open("p"), text("a\u{fffd}b\u{fffd}"), close("p"), Ev::End]
    );
}

#[test]
fn text_after_last_tag_is_not_emitted() {
    assert_eq!(events_of("<p></p> tail"), vec![open("p"), close("p"), Ev::End]);
}

#[test]
fn read_outcomes_are_handled() {
    let mut ctx = HtmlParserContext::new();
    assert!(matches!(ctx.handle_chunk(None), Some(Err(_))));
    assert!(ctx.handle_chunk(Some(b"<di".to_vec())).is_none());
    match ctx.handle_chunk(Some(b"v>".to_vec())) {
        Some(Ok(e)) => assert_eq!(simplify(e), open("div")),
        _ => panic!("expected the opened element"),
    }
    assert!(ctx.take_event().is_none());
    assert!(matches!(ctx.handle_chunk(Some(Vec::new())), Some(Ok(HtmlEvent::HtmlDocumentEnd))));
}

fn events_in_pieces(bytes: &[u8], cut: usize) -> Vec<Ev> {
    let mut ctx = HtmlParserContext::new();
    let mut out = Vec::new();
    let mut pieces: Vec<Vec<u8>> = [bytes[..cut].to_vec(), bytes[cut..].to_vec()]
        .into_iter()
        .filter(|p| !p.is_empty())
        .collect();
    pieces.push(Vec::new());
    for piece in pieces {
        while let Some(e) = ctx.take_event() {
            out.push(simplify(e));
        }
        match ctx.handle_chunk(Some(piece)) {
            Some(Ok(e)) => out.push(simplify(e)),
            Some(Err(_)) => panic!("no read fails here"),
            None => {}
        }
    }
    out
}

#[test]
fn cut_position_does_not_matter() {
    let doc = "<div class=\"ą b\"><p>zażółć €𝄞</p></div>".as_bytes();
    let whole = events_in_pieces(doc, doc.len());
    assert_eq!(
        whole,
        vec![
            Ev::Open("div".to_string(), vec![("class".to_string(), "ą b".to_string())]),
            open("p"),
            text("zażółć €𝄞"),
            close("p"),
            close("div"),
            Ev::End
        ]
    );
    for cut in 0..=doc.len() {
        assert_eq!(events_in_pieces(doc, cut), whole, "cut at {}", cut);
    }
}

#[test]
fn decode_at_classifies() {
    assert_eq!(decode_at(&vec![0x41], 0), Decoded::Char('A', 1));
    assert_eq!(decode_at(&vec![0x20, 0xc3, 0xb3], 1), Decoded::Char('ó', 2));
    assert_eq!(decode_at(&vec![0xe2, 0x82], 0), Decoded::Incomplete);
    assert_eq!(decode_at(&vec![0xe2, 0x82, 0xac], 0), Decoded::Char('€', 3));
    assert_eq!(decode_at(&vec![0xf0, 0x9d, 0x84, 0x9e], 0), Decoded::Char('𝄞', 4));
    assert_eq!(decode_at(&vec![0x80], 0), Decoded::Invalid);
    assert_eq!(decode_at(&vec![0xc0, 0x80], 0), Decoded::Invalid);
    assert_eq!(decode_at(&vec![0xed, 0xa0, 0x80], 0), Decoded::Invalid);
    assert_eq!(decode_at(&vec![0xe2, 0x41], 0), Decoded::Invalid);
}

#[test]
fn attribute_split_and_trim() {
    let (n, v) = split_attribute(&" content=\"a=b, c\"".chars().collect());
    assert_eq!(n, "content".chars().collect::<Vec<char>>());
    assert_eq!(v, "a=b, c".chars().collect::<Vec<char>>());
    let (n, v) = split_attribute(&"hidden".chars().collect());
    assert_eq!(n, "hidden".chars().collect::<Vec<char>>());
    assert!(v.is_empty());
    assert_eq!(trimmed(&"\u{a0} x y \n".chars().collect()), "x y".chars().collect::<Vec<char>>());
}

#[test]
fn name_lookup() {
    assert_eq!(HtmlElementName::lookup(&"Script".chars().collect()), Some(HtmlElementName::Script));
    assert_eq!(HtmlElementName::lookup(&"scripts".chars().collect()), None);
    assert!(HtmlElementName::Style.is_raw_text());
    assert!(!HtmlElementName::Div.is_raw_text());
}
