use browser::dom_tree::{Doctype, Document, ElementType};
use browser::html_parser::HtmlParser;
use browser::parser::Parser;
use browser::test_parse_doctype;

fn html_parser(text: &str) -> HtmlParser {
    HtmlParser::new(Parser::new(text.to_string()))
}

#[test]
fn lib_html_parse_doctype() {
    let proper_doctype = "<!DOCTYPE html>";
    assert!(test_parse_doctype(proper_doctype, true));
}

#[test]
fn lib_html_parse_invalid_doctype() {
    let improper_doctype = "<!DsdfCTYPE html>";
    assert!(test_parse_doctype(improper_doctype, false));
}

#[test]
fn doctype_helper_reports_a_mismatch() {
    assert!(!test_parse_doctype("<!DOCTYPE html>", false));
    assert!(!test_parse_doctype("<!DsdfCTYPE html>", true));
}

#[test]
fn doctype_variants() {
    let doc = html_parser("<!DOCTYPE html>").parse_doctype().unwrap();
    assert_eq!(doc.d_type, Doctype::Html);
    assert!(doc.element.is_none());
    assert!(html_parser("<!DOCTYPE   html   >").parse_doctype().is_some());
    assert!(html_parser("<!doctype html>").parse_doctype().is_none());
    assert!(html_parser("<!DOCTYPE xml>").parse_doctype().is_none());
    assert!(html_parser("<!DOCTYPE html").parse_doctype().is_none());
    assert!(html_parser("!DOCTYPE html>").parse_doctype().is_none());
    assert!(html_parser("").parse_doctype().is_none());
}

#[test]
fn doctype_then_element() {
    let mut html = html_parser("<!DOCTYPE html><html>hi</html>");
    let mut document = html.parse_doctype().unwrap();
    document.element = html.parse_element();
    let root = document.element.unwrap();
    assert_eq!(root.e_type, ElementType::Root);
    assert_eq!(root.text, Some("hi".to_string()));
}

#[test]
fn lib_html_parse_elements() {
    let test_string = "<html>\
		<head>\
			<title>Aliens?\
			</title>\
		</head>\
		<body>\
			A bunch of text that makes up the body\
		</body>
	</html>";
    let mut html = html_parser(test_string);
    let mut document = Document::new(Doctype::Html);
    document.element = html.parse_element();

    assert_eq!(document.element.as_mut().unwrap().e_type, ElementType::Root);
    assert_eq!(document.element.as_mut().unwrap().text, None);

    assert!(document.element.as_mut().unwrap().children.len() == 2);

    assert_eq!(document.element.as_mut().unwrap().children[0].e_type, ElementType::Head);
    assert_eq!(document.element.as_mut().unwrap().children[0].text, None);
    assert!(document.element.as_mut().unwrap().children[0].children.len() == 1);

    assert_eq!(
        document.element.as_mut().unwrap().children[0].children[0].e_type,
        ElementType::Title
    );

    match document.element.as_mut().unwrap().children[0].children[0].text {
        Some(ref s) => {
            if *s != "Aliens?" {
                assert!(false)
            }
        }
        None => assert!(false),
    }

    assert_eq!(document.element.as_mut().unwrap().children[1].e_type, ElementType::Body);

    match document.element.as_mut().unwrap().children[1].text {
        Some(ref s) => {
            if *s != "A bunch of text that makes up the body" {
                assert!(false)
            }
        }
        None => assert!(false),
    }

    assert!(document.element.as_mut().unwrap().children[1].children.len() == 0);
}

#[test]
fn parse_elements_without_whitespace() {
    let text = "<html><head><title>Aliens?</title></head><body>A bunch of text that makes up the body</body></html>";
    let mut html = html_parser(text);
    let root = html.parse_element().unwrap();
    assert_eq!(root.e_type, ElementType::Root);
    assert_eq!(root.children.len(), 2);
    assert_eq!(root.children[0].e_type, ElementType::Head);
    assert_eq!(root.children[0].children.len(), 1);
    assert_eq!(root.children[0].children[0].e_type, ElementType::Title);
    assert_eq!(root.children[0].children[0].text, Some("Aliens?".to_string()));
    assert_eq!(root.children[1].e_type, ElementType::Body);
    assert_eq!(root.children[1].children.len(), 0);
    assert_eq!(
        root.children[1].text,
        Some("A bunch of text that makes up the body".to_string())
    );
    assert!(html.parse.end_of_string());
}

#[test]
fn unknown_tag_gives_nothing() {
    let mut html = html_parser("<div>x</div>");
    assert!(html.parse_element().is_none());
}

#[test]
fn unknown_child_is_dropped() {
    let mut html = html_parser("<html><div></div><body>b</body></html>");
    let root = html.parse_element().unwrap();
    assert_eq!(root.children.len(), 1);
    assert_eq!(root.children[0].e_type, ElementType::Body);
}

#[test]
fn unknown_element_is_dropped_with_its_content() {
    let mut html = html_parser("<html><div><body>x</body></div><head></head></html>");
    let root = html.parse_element().unwrap();
    assert_eq!(root.children.len(), 1);
    assert_eq!(root.children[0].e_type, ElementType::Head);
    assert!(html.parse.end_of_string());
}

#[test]
fn attributes_are_skipped_and_whitespace_between_tags() {
    let mut html = html_parser("<html lang=\"en\">\n  <head class=\"a\"></head>\n  <body>b</body>\n</html>");
    let root = html.parse_element().unwrap();
    assert_eq!(root.text, Some("\n  ".to_string()));
    assert_eq!(root.children.len(), 2);
    assert_eq!(root.children[0].e_type, ElementType::Head);
    assert_eq!(root.children[0].text, None);
    assert_eq!(root.children[1].e_type, ElementType::Body);
}

#[test]
fn empty_input_gives_nothing() {
    let mut html = html_parser("");
    assert!(html.parse_element().is_none());
    let mut lone = html_parser("<");
    assert!(lone.parse_element().is_none());
}

#[test]
fn elements_nested_too_deep_are_skipped() {
    let mut text = String::from("<html>");
    for _ in 0..200 {
        text.push_str("<body>");
    }
    text.push_str("deep");
    for _ in 0..200 {
        text.push_str("</body>");
    }
    text.push_str("<head></head></html>");
    let mut html = html_parser(&text);
    let root = html.parse_element().unwrap();
    assert_eq!(root.children.len(), 2);
    assert_eq!(root.children[1].e_type, ElementType::Head);

    let mut levels = 1;
    let mut node = &root.children[0];
    while node.children.len() == 1 {
        levels += 1;
        node = &node.children[0];
    }
    assert_eq!(node.children.len(), 0);
    assert_eq!(levels, browser::html_parser::MAX_DEPTH - 1);
    assert!(html.parse.end_of_string());
}

#[test]
fn failed_doctype_leaves_the_cursor_where_reading_stopped() {
    let mut html = html_parser("ab");
    assert!(html.parse_doctype().is_none());
    assert_eq!(html.parse.peek_char(), Some('a'));

    let mut html = html_parser("<a");
    assert!(html.parse_doctype().is_none());
    assert_eq!(html.parse.peek_char(), Some('a'));

    let mut html = html_parser("<!DsdfCTYPE html>x");
    assert!(html.parse_doctype().is_none());
    assert_eq!(html.parse.peek_char(), Some('x'));

    let mut html = html_parser("<!DOCTYPE html >y");
    assert!(html.parse_doctype().is_some());
    assert_eq!(html.parse.peek_char(), Some('y'));
}
