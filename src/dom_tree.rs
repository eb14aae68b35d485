use vstd::prelude::*;

verus! {

/// The kinds of element the markup parser recognises.
#[derive(Debug, Clone, Copy, PartialEq, Eq, Hash, Structural)]
pub enum ElementType {
    Root,
    Head,
    Title,
    Body,
}

/// The document types the markup parser accepts.
#[derive(Debug, Clone, Copy, PartialEq, Eq, Structural)]
pub enum Doctype {
    Html,
}

/// A parsed document: its type, and the root element once it is parsed.
pub struct Document {
    pub d_type: Doctype,
    pub element: Option<Element>,
}

/// A node of the DOM tree. It owns its children.
#[derive(Debug)]
pub struct Element {
    pub e_type: ElementType,
    pub text: Option<String>,
    pub children: Vec<Element>,
}

/// The characters of an optional text.
pub open spec fn text_view(t: Option<String>) -> Option<Seq<char>> {
    match t {
        Some(s) => Some(s@),
        None => None,
    }
}

/// Two elements hold the same types and texts, in trees of the same shape.
pub open spec fn same_tree(a: Element, b: Element) -> bool
    decreases a,
{
    &&& a.e_type == b.e_type
    &&& text_view(a.text) == text_view(b.text)
    &&& a.children.len() == b.children.len()
    &&& forall|i: int|
        0 <= i < a.children.len() ==> same_tree(#[trigger] a.children[i], b.children[i])
}

fn copy_text(t: &Option<String>) -> (r: Option<String>)
    ensures
        text_view(r) == text_view(*t),
{
    match t {
        Some(s) => Some(s.clone()),
        None => None,
    }
}

impl Document {
    pub fn new(d_type: Doctype) -> (r: Document)
        ensures
            r.d_type == d_type,
            r.element is None,
    {
        Document { d_type: d_type, element: None }
    }
}

/// An element with no children.
pub fn new_element(e_type: ElementType, text: Option<String>) -> (r: Element)
    ensures
        r.e_type == e_type,
        r.text == text,
        r.children@.len() == 0,
{
    Element { e_type: e_type, text: text, children: Vec::new() }
}

impl Element {
    /// The first element of a DOM tree: no text, no children.
    pub fn new_root(e_type: ElementType) -> (r: Element)
        ensures
            r.e_type == e_type,
            r.text is None,
            r.children@.len() == 0,
    {
        Element { e_type: e_type, text: None, children: Vec::new() }
    }

    /// Appends a new childless element of the given type and text.
    pub fn add_child(&mut self, e_type: ElementType, text: Option<String>)
        ensures
            final(self).e_type == old(self).e_type,
            final(self).text == old(self).text,
            final(self).children@.len() == old(self).children@.len() + 1,
            final(self).children@.drop_last() == old(self).children@,
            final(self).children@.last().e_type == e_type,
            final(self).children@.last().text == text,
            final(self).children@.last().children@.len() == 0,
    {
        let e = new_element(e_type, text);
        self.children.push(e);
    }

    /// Appends `e` as the last child.
    pub fn add_child_element(&mut self, e: Element)
        ensures
            final(self).e_type == old(self).e_type,
            final(self).text == old(self).text,
            final(self).children@ == old(self).children@.push(e),
    {
        self.children.push(e);
    }

    /// A copy of the whole subtree.
    pub fn deep_copy(&self) -> (r: Element)
        ensures
            same_tree(r, *self),
        decreases self,
    {
        let mut children: Vec<Element> = Vec::new();
        let n = self.children.len();
        let mut i: usize = 0;
        while i < n
            invariant
                n == self.children.len(),
                i <= n,
                children.len() == i,
                forall|j: int| 0 <= j < i ==> same_tree(#[trigger] children[j], self.children[j]),
            decreases n - i,
        {
            let c = self.children[i].deep_copy();
            children.push(c);
            i = i + 1;
        }
        Element { e_type: self.e_type, text: copy_text(&self.text), children: children }
    }
}

impl Clone for Element {
    fn clone(&self) -> Self {
        self.deep_copy()
    }
}

} // verus!
