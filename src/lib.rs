pub mod css;
pub mod dom_tree;
pub mod html_parser;
pub mod layout_tree;
pub mod parser;
pub mod style_tree;

use vstd::prelude::*;

use html_parser::{doctype_ok, HtmlParser};
use parser::Parser;

verus! {

/// Whether `parse_doctype` accepts `doctype` exactly when `is_proper` says so.
pub fn test_parse_doctype(doctype: &str, is_proper: bool) -> (r: bool)
    ensures
        r == (doctype_ok(doctype@, 0) == is_proper),
{
    let p = Parser::new(String::from_str(doctype));
    let mut html = HtmlParser::new(p);
    match html.parse_doctype() {
        Some(_) => is_proper,
        None => !is_proper,
    }
}

} // verus!
