use htmlparser::element::HtmlElementName;
use htmlparser::{HtmlEvent, HtmlParser, SliceSource};

const EXAMPLE: &str = "<!DOCTYPE html>
<html lang=\"en\">
<head>
  <meta charset=\"UTF-8\">
  <meta name=\"viewport\" content=\"width=device-width, initial-scale=1.0\">
  <meta http-equiv=\"X-UA-Compatible\" content=\"ie=edge\">
  <title>HTML 5 Boilerplate</title>
  <link rel=\"stylesheet\" href=\"style.css\">
  <script>if (1 < 2) { console.log('test'); }</script>
</head>
<body>
  <script src=\"index.js\"></script>
</body>
</html>
";

const ENTRY: &str = "<div class=\"test test_eq\" data-value=\"test\"><p><span>text content</span></p></div>\n";

fn parser_for(text: &str) -> HtmlParser<SliceSource> {
    HtmlParser::new(SliceSource::new(text.as_bytes().to_vec()))
}

#[test]
fn example_test_it_works() {
    let mut parser = parser_for(EXAMPLE);
    let mut counter = 0;

    loop {
        let event = parser.next().unwrap();
        counter += 1;
        println!("{:#?}", event);

        match event {
            HtmlEvent::HtmlElementOpened { opened_element } => {
                if counter == 1 {
                    assert_eq!(HtmlElementName::Doctype.to_str(), opened_element.name.to_str());
                    assert_eq!(opened_element.attributes.get("html"), Some(&String::new()));
                } else if counter == 2 {
                    assert_eq!(HtmlElementName::Html.to_str(), opened_element.name.to_str());
                    assert_eq!(opened_element.attributes.get("lang"), Some(&"en".to_string()));
                } else if counter == 3 {
                    assert_eq!(HtmlElementName::Head.to_str(), opened_element.name.to_str());
                } else if counter == 4 {
                    assert_eq!(HtmlElementName::Meta.to_str(), opened_element.name.to_str());
                    assert_eq!(opened_element.attributes.get("charset"), Some(&"UTF-8".to_string()));
                } else if counter == 5 {
                    assert_eq!(HtmlElementName::Meta.to_str(), opened_element.name.to_str());
                    assert_eq!(opened_element.attributes.get("name"), Some(&"viewport".to_string()));
                    assert_eq!(opened_element.attributes.get("content"), Some(&"width=device-width, initial-scale=1.0".to_string()));
                } else if counter == 6 {
                    assert_eq!(HtmlElementName::Meta.to_str(), opened_element.name.to_str());
                    assert_eq!(opened_element.attributes.get("http-equiv"), Some(&"X-UA-Compatible".to_string()));
                    assert_eq!(opened_element.attributes.get("content"), Some(&"ie=edge".to_string()));
                } else if counter == 7 {
                    assert_eq!(HtmlElementName::Title.to_str(), opened_element.name.to_str());
                } else if counter == 10 {
                    assert_eq!(HtmlElementName::Link.to_str(), opened_element.name.to_str());
                    assert_eq!(opened_element.attributes.get("rel"), Some(&"stylesheet".to_string()));
                    assert_eq!(opened_element.attributes.get("href"), Some(&"style.css".to_string()));
                } else if counter == 11 {
                    assert!(opened_element.name.is_element(HtmlElementName::Script));
                } else if counter == 15 {
                    assert_eq!(HtmlElementName::Body.to_str(), opened_element.name.to_str());
                } else if counter == 16 {
                    assert_eq!(HtmlElementName::Script.to_str(), opened_element.name.to_str());
                    assert_eq!(opened_element.attributes.get("src"), Some(&"index.js".to_string()));
                } else {
                    panic!("unexpected opening event at {}", counter);
                }
            }

            HtmlEvent::HtmlElementClosed { closed_element } => {
                if counter == 9 {
                    assert_eq!(HtmlElementName::Title.to_str(), closed_element.name.to_str());
                } else if counter == 13 {
                    assert_eq!(HtmlElementName::Script.to_str(), closed_element.name.to_str());
                } else if counter == 14 {
                    assert_eq!(HtmlElementName::Head.to_str(), closed_element.name.to_str());
                } else if counter == 17 {
                    assert_eq!(HtmlElementName::Script.to_str(), closed_element.name.to_str());
                } else if counter == 18 {
                    assert_eq!(HtmlElementName::Body.to_str(), closed_element.name.to_str());
                } else if counter == 19 {
                    assert_eq!(HtmlElementName::Html.to_str(), closed_element.name.to_str());
                } else {
                    panic!("unexpected closing event at {}", counter);
                }
            }

            HtmlEvent::TextContent(content) => {
                if counter == 8 {
                    assert_eq!("HTML 5 Boilerplate".to_string(), content);
                } else if counter == 12 {
                    assert_eq!("if (1 < 2) { console.log('test'); }".to_string(), content);
                } else {
                    panic!("unexpected text at {}", counter);
                }
            }

            HtmlEvent::HtmlDocumentEnd => {
                assert_eq!(counter, 20);

                break;
            }
        }
    }
}

#[test]
fn entry_test_it_works() {
    let mut parser = parser_for(ENTRY);
    let mut counter = 0;
    loop {
        let event = parser.next().unwrap();
        counter += 1;
        println!("{:#?}", event);

        match event {
            HtmlEvent::HtmlElementOpened { opened_element } => {
                if counter == 1 {
                    assert_eq!(HtmlElementName::Div.to_str(), opened_element.name.to_str());
                    assert_eq!(opened_element.attributes.get("class"), Some(&"test test_eq".to_string()));
                    assert_eq!(opened_element.attributes.get("data-value"), Some(&"test".to_string()));
                    assert_eq!(opened_element.attributes.len(), 2);
                } else if counter == 2 {
                    assert_eq!(HtmlElementName::P.to_str(), opened_element.name.to_str());
                } else if counter == 3 {
                    assert_eq!(HtmlElementName::Span.to_str(), opened_element.name.to_str());
                } else {
                    panic!("unexpected opening event at {}", counter);
                }
            }

            HtmlEvent::HtmlElementClosed { closed_element } => {
                if counter == 7 {
                    assert_eq!(HtmlElementName::Div.to_str(), closed_element.name.to_str());
                } else if counter == 6 {
                    assert_eq!(HtmlElementName::P.to_str(), closed_element.name.to_str());
                } else if counter == 5 {
                    assert_eq!(HtmlElementName::Span.to_str(), closed_element.name.to_str());
                } else {
                    panic!("unexpected closing event at {}", counter);
                }
            }

            HtmlEvent::TextContent(content) => {
                assert_eq!(counter, 4);
                assert_eq!("text content", content);
            }

            HtmlEvent::HtmlDocumentEnd => {
                assert_eq!(counter, 8);

                break;
            }
        }
    }
}
