use vstd::prelude::*;

use crate::css::box_model::{zero_box, Box, Edges, Rectangle};
use crate::css::stylesheet::{
    box_value, box_value_from_declaration, decls_view, BlockType, Declaration, Property, Selector,
    StyleSheet, Value,
};
use crate::dom_tree::{same_tree, Element};

verus! {

/// A node of the style tree, which runs parallel to the DOM tree: each
/// node holds the declarations of the stylesheet that apply to its element.
pub struct StyleNode<'a> {
    pub element: &'a Element,
    pub declarations: Option<&'a Vec<Declaration>>,
    pub children: Vec<StyleNode<'a>>,
}

/// The declarations that `sheet` has for elements of the type of `e`.
pub open spec fn rules_for(e: Element, sheet: StyleSheet) -> Option<Seq<Declaration>> {
    sheet.ruleset.lookup(Selector::SelectorType(e.e_type))
}

/// `s` is the style tree of `e` under `sheet`: each node refers to the
/// element at the same place and holds the declarations for its type.
pub open spec fn styled(s: StyleNode, e: Element, sheet: StyleSheet) -> bool
    decreases e,
{
    &&& *s.element == e
    &&& decls_view(s.declarations) == rules_for(e, sheet)
    &&& s.children.len() == e.children.len()
    &&& forall|i: int|
        0 <= i < e.children.len() ==> styled(#[trigger] s.children[i], e.children[i], sheet)
}

/// The box that the declarations give: each padding, border and margin
/// from the first declaration of its property; all else zero.
pub open spec fn box_of(d: Option<Seq<Declaration>>) -> Box {
    match d {
        None => zero_box(),
        Some(ds) => Box {
            content: Rectangle { x: 0, y: 0, height: 0, width: 0 },
            padding: Edges {
                top: box_value(ds, Property::PaddingTop),
                bottom: box_value(ds, Property::PaddingBottom),
                right: box_value(ds, Property::PaddingRight),
                left: box_value(ds, Property::PaddingLeft),
            },
            border: Edges {
                top: box_value(ds, Property::BorderTopHeight),
                bottom: box_value(ds, Property::BorderBottomHeight),
                right: box_value(ds, Property::BorderRightHeight),
                left: box_value(ds, Property::BorderLeftHeight),
            },
            margin: Edges {
                top: box_value(ds, Property::MarginTop),
                bottom: box_value(ds, Property::MarginBottom),
                right: box_value(ds, Property::MarginRight),
                left: box_value(ds, Property::MarginLeft),
            },
        },
    }
}

/// The value of the first `display` declaration.
pub open spec fn display_of(ds: Seq<Declaration>) -> Option<Value>
    decreases ds.len(),
{
    if ds.len() == 0 {
        None
    } else if ds[0].property_name == Property::Display {
        Some(ds[0].property_value)
    } else {
        display_of(ds.drop_first())
    }
}

/// Inline where the first `display` declaration says `inline`; block otherwise.
pub open spec fn block_type_of(d: Option<Seq<Declaration>>) -> BlockType {
    match d {
        Some(ds) => match display_of(ds) {
            Some(Value::Block(BlockType::Inline)) => BlockType::Inline,
            _ => BlockType::Block,
        },
        None => BlockType::Block,
    }
}

impl<'a> StyleNode<'a> {
    /// The style node of `node` alone, without children.
    pub fn new<'c>(node: &'c Element, style: &'c StyleSheet) -> (r: StyleNode<'c>)
        ensures
            *r.element == *node,
            decls_view(r.declarations) == rules_for(*node, *style),
            r.children.len() == 0,
    {
        let children = Vec::new();
        let decls = style.ruleset.get(&Selector::SelectorType(node.e_type));
        StyleNode { element: node, declarations: decls, children: children }
    }

    /// A copy of the DOM element of this node.
    pub fn get_element(&self) -> (r: Element)
        ensures
            same_tree(r, *self.element),
    {
        self.element.deep_copy()
    }

    /// The box that this node's declarations give.
    pub fn create_layout_box(&self) -> (r: Box)
        ensures
            r == box_of(decls_view(self.declarations)),
    {
        match self.declarations {
            Some(d) => {
                let pt = box_value_from_declaration(d, Property::PaddingTop);
                let pb = box_value_from_declaration(d, Property::PaddingBottom);
                let pl = box_value_from_declaration(d, Property::PaddingLeft);
                let pr = box_value_from_declaration(d, Property::PaddingRight);

                let bt = box_value_from_declaration(d, Property::BorderTopHeight);
                let bb = box_value_from_declaration(d, Property::BorderBottomHeight);
                let bl = box_value_from_declaration(d, Property::BorderLeftHeight);
                let br = box_value_from_declaration(d, Property::BorderRightHeight);

                let mt = box_value_from_declaration(d, Property::MarginTop);
                let mb = box_value_from_declaration(d, Property::MarginBottom);
                let ml = box_value_from_declaration(d, Property::MarginLeft);
                let mr = box_value_from_declaration(d, Property::MarginRight);

                let mut retval = Box::default();
                retval.padding.top = pt;
                retval.padding.bottom = pb;
                retval.padding.left = pl;
                retval.padding.right = pr;

                retval.border.top = bt;
                retval.border.bottom = bb;
                retval.border.left = bl;
                retval.border.right = br;

                retval.margin.top = mt;
                retval.margin.bottom = mb;
                retval.margin.left = ml;
                retval.margin.right = mr;
                retval
            },
            None => Box::default(),
        }
    }

    /// How this node takes part in layout, from its first `display` declaration.
    pub fn get_block_type(&self) -> (r: BlockType)
        ensures
            r == block_type_of(decls_view(self.declarations)),
    {
        match self.declarations {
            Some(d) => {
                let n = d.len();
                let mut i: usize = 0;
                assert(d@.subrange(0, n as int) =~= d@);
                while i < n
                    invariant
                        i <= n,
                        n == d@.len(),
                        decls_view(self.declarations) == Some(d@),
                        display_of(d@) == display_of(d@.subrange(i as int, n as int)),
                    decreases n - i,
                {
                    assert(d@.subrange(i as int, n as int).drop_first() =~= d@.subrange(
                        i + 1,
                        n as int,
                    ));
                    assert(d@.subrange(i as int, n as int)[0] == d@[i as int]);
                    if d[i].property_name == Property::Display {
                        return match d[i].property_value {
                            Value::Block(BlockType::Inline) => BlockType::Inline,
                            _ => BlockType::Block,
                        };
                    }
                    i = i + 1;
                }
                BlockType::Block
            },
            None => BlockType::Block,
        }
    }
}

/// Builds the style tree of `root` under `style`.
pub fn build_style_tree<'c>(root: &'c Element, style: &'c StyleSheet) -> (r: StyleNode<'c>)
    ensures
        styled(r, *root, *style),
    decreases root,
{
    let n = root.children.len();
    let mut children: Vec<StyleNode<'c>> = Vec::new();
    let mut i: usize = 0;
    while i < n
        invariant
            n == root.children.len(),
            i <= n,
            children.len() == i,
            forall|j: int| 0 <= j < i ==> styled(#[trigger] children[j], root.children[j], *style),
        decreases n - i,
    {
        let child = build_style_tree(&root.children[i], style);
        children.push(child);
        i = i + 1;
    }
    StyleNode {
        element: root,
        declarations: style.ruleset.get(&Selector::SelectorType(root.e_type)),
        children: children,
    }
}

} // verus!
