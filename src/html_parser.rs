use vstd::prelude::*;

use crate::dom_tree::{text_view, Doctype, Document, Element, ElementType};
use crate::parser::{
    is_ascii_letter, is_letter, is_space, is_whitespace, lemma_run_end, lemma_run_end_bounds,
    letter_pred, run_end, skip_past, space_pred, str_eq, Parser,
};

verus! {

/// Characters other than `<`.
pub open spec fn lt_pred() -> spec_fn(char) -> bool {
    |c: char| c != '<'
}

/// Characters other than `>`.
pub open spec fn gt_pred() -> spec_fn(char) -> bool {
    |c: char| c != '>'
}

/// Characters of a tag name: neither whitespace nor `>`.
pub open spec fn tag_pred() -> spec_fn(char) -> bool {
    |c: char| !is_space(c) && c != '>'
}

/// Where the doctype's first word ends.
pub open spec fn doctype_header_end(t: Seq<char>, p: int) -> int {
    run_end(t, p + 2, letter_pred())
}

/// Where the doctype's second word starts.
pub open spec fn doctype_type_start(t: Seq<char>, p: int) -> int {
    run_end(t, doctype_header_end(t, p), space_pred())
}

/// Where the doctype's second word ends.
pub open spec fn doctype_type_end(t: Seq<char>, p: int) -> int {
    run_end(t, doctype_type_start(t, p), letter_pred())
}

/// Where the doctype's closing `>` is expected.
pub open spec fn doctype_close(t: Seq<char>, p: int) -> int {
    run_end(t, doctype_type_end(t, p), space_pred())
}

/// The text at `p` is `<!`, the word `DOCTYPE`, whitespace, the word `html`,
/// optional whitespace and `>`.
pub open spec fn doctype_ok(t: Seq<char>, p: int) -> bool {
    &&& p + 1 < t.len()
    &&& t[p] == '<'
    &&& t[p + 1] == '!'
    &&& t.subrange(p + 2, doctype_header_end(t, p)) == "DOCTYPE"@
    &&& t.subrange(doctype_type_start(t, p), doctype_type_end(t, p)) == "html"@
    &&& doctype_close(t, p) < t.len()
    &&& t[doctype_close(t, p)] == '>'
}

/// Where reading a doctype at `p` stops: at the first of `<` and `!` that
/// is missing; otherwise after the two words and the whitespace after
/// them, and past the `>` if it is there.
pub open spec fn doctype_stop(t: Seq<char>, p: int) -> int {
    if !(p < t.len() && t[p] == '<') {
        p
    } else if !(p + 1 < t.len() && t[p + 1] == '!') {
        p + 1
    } else if doctype_close(t, p) < t.len() && t[doctype_close(t, p)] == '>' {
        doctype_close(t, p) + 1
    } else {
        doctype_close(t, p)
    }
}

/// The element type that a tag name stands for.
pub open spec fn element_type_of(name: Seq<char>) -> Option<ElementType> {
    if name == "html"@ {
        Some(ElementType::Root)
    } else if name == "head"@ {
        Some(ElementType::Head)
    } else if name == "title"@ {
        Some(ElementType::Title)
    } else if name == "body"@ {
        Some(ElementType::Body)
    } else {
        None
    }
}

/// Where the name of the next tag starts: past the next `<`.
pub open spec fn name_start(t: Seq<char>, p: int) -> int {
    skip_past(t, p, lt_pred())
}

/// The name of the next tag.
pub open spec fn node_name(t: Seq<char>, p: int) -> Seq<char> {
    t.subrange(name_start(t, p), run_end(t, name_start(t, p), tag_pred()))
}

/// Where the next tag ends: past its `>`.
pub open spec fn node_end(t: Seq<char>, p: int) -> int {
    skip_past(t, run_end(t, name_start(t, p), tag_pred()), gt_pred())
}

/// Where the text after the next tag ends: at the following `<`.
pub open spec fn text_end(t: Seq<char>, p: int) -> int {
    run_end(t, node_end(t, p), lt_pred())
}

/// How deep elements may nest; deeper ones are skipped.
pub const MAX_DEPTH: usize = 128;

/// Where the skipping of an element ends, from `p` inside it with `open`
/// elements still open: past the closing tag of the last open one, or at
/// the end. Tags are counted, not read.
pub open spec fn skip_elem(t: Seq<char>, p: int, open: nat) -> int
    decreases t.len() - p,
    via skip_elem_decreases
{
    if p < 0 || p >= t.len() || open == 0 {
        p
    } else {
        let a = run_end(t, p, lt_pred());
        if a >= t.len() {
            a
        } else if a + 1 < t.len() && t[a + 1] == '/' {
            skip_elem(t, skip_past(t, a, gt_pred()), (open - 1) as nat)
        } else {
            skip_elem(t, skip_past(t, a, gt_pred()), open + 1)
        }
    }
}

/// Passing a tag at `a` moves past its `<`.
pub proof fn lemma_tag_end_moves(t: Seq<char>, a: int)
    requires
        0 <= a < t.len(),
        t[a] == '<',
    ensures
        a < skip_past(t, a, gt_pred()) <= t.len(),
{
    lemma_run_end_bounds(t, a, gt_pred());
}

#[via_fn]
proof fn skip_elem_decreases(t: Seq<char>, p: int, open: nat) {
    if 0 <= p < t.len() {
        lemma_run_end_bounds(t, p, lt_pred());
        let a = run_end(t, p, lt_pred());
        if a < t.len() {
            lemma_tag_end_moves(t, a);
        }
    }
}

/// A DOM tree as a mathematical value.
pub struct DomModel {
    pub kind: ElementType,
    pub text: Option<Seq<char>>,
    pub children: Seq<DomModel>,
}

/// `e` holds the tree `m`.
pub open spec fn models(e: Element, m: DomModel) -> bool
    decreases e,
{
    &&& e.e_type == m.kind
    &&& text_view(e.text) == m.text
    &&& e.children.len() == m.children.len()
    &&& forall|i: int| 0 <= i < e.children.len() ==> models(#[trigger] e.children[i], m.children[i])
}

/// The element read from `p`, at `depth` elements deep, if its tag is
/// recognised, and where the reading ends. An element deeper than
/// `MAX_DEPTH` is skipped, with all it holds. Text right after the opening tag is the element's text;
/// then elements are read as children up to the closing tag. An element
/// whose tag is not recognised is read the same way, so that reading goes
/// on after its closing tag, and then dropped with all it holds.
pub open spec fn parse_elem(t: Seq<char>, p: int, depth: nat) -> (Option<DomModel>, int)
    decreases t.len() - p, 0int,
    via parse_elem_decreases
{
    if p < 0 || p > t.len() {
        (None, p)
    } else if depth >= MAX_DEPTH {
        (None, skip_elem(t, node_end(t, p), 1))
    } else {
        let q = text_end(t, p);
        let kids = if p < t.len() {
            parse_kids(t, q, Seq::empty(), depth)
        } else {
            (Seq::empty(), q)
        };
        match element_type_of(node_name(t, p)) {
            None => (None, kids.1),
            Some(kind) => {
                let txt = t.subrange(node_end(t, p), q);
                (
                    Some(
                        DomModel {
                            kind: kind,
                            text: if txt.len() == 0 {
                                None
                            } else {
                                Some(txt)
                            },
                            children: kids.0,
                        },
                    ),
                    kids.1,
                )
            },
        }
    }
}

/// The children of an element `depth` deep read from `p` up to the
/// closing tag, after `acc`, and
/// where the reading ends. Text between tags is skipped; an element whose
/// tag is not recognised is dropped.
pub open spec fn parse_kids(t: Seq<char>, p: int, acc: Seq<DomModel>, depth: nat) -> (
    Seq<DomModel>,
    int,
)
    decreases t.len() - p, 1int,
    via parse_kids_decreases
{
    if p < 0 || p > t.len() {
        (acc, p)
    } else {
        let a = run_end(t, p, lt_pred());
        if a >= t.len() {
            (acc, a)
        } else if a + 1 < t.len() && t[a + 1] == '/' {
            (acc, skip_past(t, a, gt_pred()))
        } else {
            let c = parse_elem(t, a, depth + 1);
            let acc2 = match c.0 {
                Some(m) => acc.push(m),
                None => acc,
            };
            // Reading an element consumes at least its `<`.
            if a < c.1 <= t.len() {
                parse_kids(t, c.1, acc2, depth)
            } else {
                (acc2, c.1)
            }
        }
    }
}

/// The bounds of the positions that reading a tag passes.
pub proof fn lemma_node_bounds(t: Seq<char>, p: int)
    requires
        0 <= p <= t.len(),
    ensures
        p <= name_start(t, p) <= run_end(t, name_start(t, p), tag_pred()),
        run_end(t, name_start(t, p), tag_pred()) <= node_end(t, p),
        node_end(t, p) <= text_end(t, p) <= t.len(),
{
    lemma_run_end_bounds(t, p, lt_pred());
    let b = name_start(t, p);
    lemma_run_end_bounds(t, b, tag_pred());
    let c = run_end(t, b, tag_pred());
    lemma_run_end_bounds(t, c, gt_pred());
    lemma_run_end_bounds(t, node_end(t, p), lt_pred());
}

/// Reading a tag before the end moves forward: at least past its `<`.
pub proof fn lemma_tag_moves(t: Seq<char>, p: int)
    requires
        0 <= p < t.len(),
    ensures
        p < name_start(t, p),
        p < text_end(t, p),
{
    lemma_node_bounds(t, p);
    lemma_run_end_bounds(t, p, lt_pred());
}

#[via_fn]
proof fn parse_elem_decreases(t: Seq<char>, p: int, depth: nat) {
    if 0 <= p < t.len() {
        lemma_node_bounds(t, p);
        lemma_tag_moves(t, p);
    }
}

#[via_fn]
proof fn parse_kids_decreases(t: Seq<char>, p: int, acc: Seq<DomModel>, depth: nat) {
    if 0 <= p <= t.len() {
        lemma_run_end_bounds(t, p, lt_pred());
    }
}

pub struct HtmlParser {
    pub parse: Parser,
}

impl HtmlParser {
    pub fn new(parser: Parser) -> (r: HtmlParser)
        ensures
            r.parse == parser,
    {
        HtmlParser { parse: parser }
    }

    /// An html document begins with `<!DOCTYPE html>`: reads it, and returns
    /// a document without elements if it is there. What was read stays
    /// consumed when it is not.
    pub fn parse_doctype(&mut self) -> (r: Option<Document>)
        requires
            old(self).parse.wf(),
        ensures
            final(self).parse.wf(),
            final(self).parse.text() == old(self).parse.text(),
            r is Some == doctype_ok(old(self).parse.text(), old(self).parse.pos()),
            r is Some ==> r->0.d_type == Doctype::Html && r->0.element is None,
            final(self).parse.pos() == doctype_stop(old(self).parse.text(), old(self).parse.pos()),
    {
        let ghost t = self.parse.text();
        let ghost p = self.parse.pos();
        if !self.parse.consume_if_char_matches('<') {
            return None;
        }
        if !self.parse.consume_if_char_matches('!') {
            return None;
        }
        let doctype_header = self.parse.consume_while(
            |c: char| -> (r: bool) ensures r == is_letter(c) { is_ascii_letter(c) },
        );
        proof {
            lemma_run_end(t, p + 2, self.parse.pos(), letter_pred());
        }
        self.parse.consume_whitespace();
        let ghost c = self.parse.pos();
        let doctype_type = self.parse.consume_while(
            |c: char| -> (r: bool) ensures r == is_letter(c) { is_ascii_letter(c) },
        );
        proof {
            lemma_run_end(t, c, self.parse.pos(), letter_pred());
        }
        self.parse.consume_whitespace();
        if self.parse.consume_if_char_matches('>') && str_eq(doctype_header.as_str(), "DOCTYPE")
            && str_eq(doctype_type.as_str(), "html") {
            Some(Document::new(Doctype::Html))
        } else {
            None
        }
    }

    /// Reads the next opening tag and returns its name.
    fn parse_node(&mut self) -> (r: String)
        requires
            old(self).parse.wf(),
        ensures
            final(self).parse.wf(),
            final(self).parse.text() == old(self).parse.text(),
            final(self).parse.pos() == node_end(old(self).parse.text(), old(self).parse.pos()),
            r@ == node_name(old(self).parse.text(), old(self).parse.pos()),
    {
        let ghost t = self.parse.text();
        let ghost p = self.parse.pos();
        self.parse.consume_while(|c: char| -> (r: bool) ensures r == (c != '<') { c != '<' });
        proof {
            lemma_run_end(t, p, self.parse.pos(), lt_pred());
        }
        self.parse.consume_char();
        let ghost b = self.parse.pos();
        // The first word of the tag; what follows it is skipped.
        let ele_type = self.parse.consume_while(
            |c: char| -> (r: bool) ensures r == (!is_space(c) && c != '>') { !is_whitespace(c) && c != '>' },
        );
        proof {
            lemma_run_end(t, b, self.parse.pos(), tag_pred());
        }
        let ghost c = self.parse.pos();
        self.parse.consume_while(|c: char| -> (r: bool) ensures r == (c != '>') { c != '>' });
        proof {
            lemma_run_end(t, c, self.parse.pos(), gt_pred());
        }
        self.parse.consume_char();
        ele_type
    }

    /// Reads the text up to the next tag.
    fn parse_dom_text(&mut self) -> (r: String)
        requires
            old(self).parse.wf(),
        ensures
            final(self).parse.wf(),
            final(self).parse.text() == old(self).parse.text(),
            final(self).parse.pos() == run_end(old(self).parse.text(), old(self).parse.pos(), lt_pred()),
            r@ == old(self).parse.text().subrange(old(self).parse.pos(), final(self).parse.pos()),
    {
        let ghost t = self.parse.text();
        let ghost p = self.parse.pos();
        let r = self.parse.consume_while(|c: char| -> (r: bool) ensures r == (c != '<') { c != '<' });
        proof {
            lemma_run_end(t, p, self.parse.pos(), lt_pred());
        }
        r
    }

    fn give_element_type(string: &str) -> (r: Option<ElementType>)
        ensures
            r == element_type_of(string@),
    {
        if str_eq(string, "html") {
            Some(ElementType::Root)
        } else if str_eq(string, "head") {
            Some(ElementType::Head)
        } else if str_eq(string, "title") {
            Some(ElementType::Title)
        } else if str_eq(string, "body") {
            Some(ElementType::Body)
        } else {
            None
        }
    }

    /// Reads an element and, recursively, its children up to its closing
    /// tag. Returns `None` if its tag is not recognised: its content is
    /// still read, through its closing tag, and dropped. Elements nested
    /// deeper than `MAX_DEPTH` are skipped.
    pub fn parse_element(&mut self) -> (r: Option<Element>)
        requires
            old(self).parse.wf(),
        ensures
            final(self).parse.wf(),
            final(self).parse.text() == old(self).parse.text(),
            final(self).parse.pos() == parse_elem(old(self).parse.text(), old(self).parse.pos(), 0).1,
            r is Some == parse_elem(old(self).parse.text(), old(self).parse.pos(), 0).0 is Some,
            r is Some ==> models(
                r->0,
                parse_elem(old(self).parse.text(), old(self).parse.pos(), 0).0->0,
            ),
    {
        self.parse_element_at(0)
    }

    /// Skips the rest of an element whose opening tag has been read: past
    /// the closing tag that matches it, counting the tags in between.
    fn skip_element(&mut self)
        requires
            old(self).parse.wf(),
        ensures
            final(self).parse.wf(),
            final(self).parse.text() == old(self).parse.text(),
            final(self).parse.pos() == skip_elem(old(self).parse.text(), old(self).parse.pos(), 1),
            old(self).parse.pos() <= final(self).parse.pos(),
    {
        let ghost t = self.parse.text();
        let ghost p = self.parse.pos();
        let mut open: usize = 1;
        loop
            invariant_except_break
                skip_elem(t, p, 1) == skip_elem(t, self.parse.pos(), open as nat),
            invariant
                self.parse.wf(),
                self.parse.text() == t,
                0 <= p <= self.parse.pos(),
                open <= self.parse.pos() - p + 1,
            ensures
                skip_elem(t, p, 1) == self.parse.pos(),
            decreases t.len() - self.parse.pos(),
        {
            let ghost before = self.parse.pos();
            if open == 0 || self.parse.end_of_string() {
                break;
            }
            self.parse.consume_while(|c: char| -> (r: bool) ensures r == (c != '<') { c != '<' });
            let ghost a = self.parse.pos();
            proof {
                lemma_run_end(t, before, a, lt_pred());
            }
            if self.parse.end_of_string() {
                break;
            }
            let closing = match self.parse.peek_next_char() {
                Some(c) => c == '/',
                None => false,
            };
            self.parse.consume_while(|c: char| -> (r: bool) ensures r == (c != '>') { c != '>' });
            proof {
                lemma_run_end(t, a, self.parse.pos(), gt_pred());
            }
            if !self.parse.consume_if_char_matches('>') {
                proof {
                    let e = self.parse.pos();
                    assert(skip_elem(t, e, (open - 1) as nat) == e);
                    assert(skip_elem(t, e, (open + 1) as nat) == e);
                }
                break;
            }
            if closing {
                open = open - 1;
            } else {
                open = open + 1;
            }
        }
    }

    /// `parse_element` for an element `depth` elements deep.
    fn parse_element_at(&mut self, depth: usize) -> (r: Option<Element>)
        requires
            old(self).parse.wf(),
            depth <= MAX_DEPTH,
        ensures
            final(self).parse.wf(),
            final(self).parse.text() == old(self).parse.text(),
            final(self).parse.pos() == parse_elem(
                old(self).parse.text(),
                old(self).parse.pos(),
                depth as nat,
            ).1,
            r is Some == parse_elem(old(self).parse.text(), old(self).parse.pos(), depth as nat).0 is Some,
            r is Some ==> models(
                r->0,
                parse_elem(old(self).parse.text(), old(self).parse.pos(), depth as nat).0->0,
            ),
            old(self).parse.pos() < old(self).parse.text().len() ==> old(self).parse.pos()
                < final(self).parse.pos(),
        decreases old(self).parse.text().len() - old(self).parse.pos(),
    {
        if depth >= MAX_DEPTH {
            let ghost t = self.parse.text();
            let ghost p = self.parse.pos();
            proof {
                lemma_node_bounds(t, p);
                if p < t.len() {
                    lemma_tag_moves(t, p);
                }
            }
            self.parse_node();
            self.skip_element();
            return None;
        }
        let ghost t = self.parse.text();
        let ghost p = self.parse.pos();
        proof {
            lemma_node_bounds(t, p);
            if p < t.len() {
                lemma_tag_moves(t, p);
            }
        }
        let ele_type = self.parse_node();
        let dom_text = self.parse_dom_text();
        let ghost q = self.parse.pos();
        let text = if dom_text.as_str().unicode_len() == 0 {
            None
        } else {
            Some(dom_text)
        };
        let kind = HtmlParser::give_element_type(ele_type.as_str());
        let mut children: Vec<Element> = Vec::new();
        let ghost mut acc: Seq<DomModel> = Seq::empty();
        loop
            invariant_except_break
                parse_kids(t, q, Seq::empty(), depth as nat) == parse_kids(
                    t,
                    self.parse.pos(),
                    acc,
                    depth as nat,
                ),
            invariant
                self.parse.wf(),
                self.parse.text() == t,
                t == old(self).parse.text(),
                p == old(self).parse.pos(),
                p <= q <= self.parse.pos(),
                p < t.len() ==> p < q,
                depth < MAX_DEPTH,
                children.len() == acc.len(),
                forall|i: int| 0 <= i < acc.len() ==> models(#[trigger] children[i], acc[i]),
            ensures
                parse_kids(t, q, Seq::empty(), depth as nat) == (acc, self.parse.pos()),
            decreases t.len() - self.parse.pos(),
        {
            let ghost before = self.parse.pos();
            proof {
                lemma_run_end_bounds(t, before, lt_pred());
            }
            if self.parse.end_of_string() {
                break;
            }
            // Skip any text up to the next tag.
            self.parse.consume_while(|c: char| -> (r: bool) ensures r == (c != '<') { c != '<' });
            let ghost a = self.parse.pos();
            proof {
                lemma_run_end(t, before, a, lt_pred());
            }
            if self.parse.end_of_string() {
                break;
            }
            let closing = match self.parse.peek_next_char() {
                Some(c) => c == '/',
                None => false,
            };
            if closing {
                self.parse.consume_while(|c: char| -> (r: bool) ensures r == (c != '>') { c != '>' });
                proof {
                    lemma_run_end(t, a, self.parse.pos(), gt_pred());
                }
                self.parse.consume_char();
                break;
            } else {
                let next_node = self.parse_element_at(depth + 1);
                proof {
                    acc = match parse_elem(t, a, (depth + 1) as nat).0 {
                        Some(m) => acc.push(m),
                        None => acc,
                    };
                }
                match next_node {
                    Some(child) => {
                        children.push(child);
                    },
                    None => {},
                }
            }
        }
        match kind {
            Some(k) => Some(Element { e_type: k, text: text, children: children }),
            None => None,
        }
    }
}

} // verus!
