use vstd::prelude::*;

use crate::css::box_model::{Box, Edges, Rectangle};
use crate::css::stylesheet::{decls_view, BlockType};
use crate::dom_tree::Element;
use crate::css::stylesheet::StyleSheet;
use crate::style_tree::{block_type_of, box_of, styled, StyleNode};

verus! {

/// A node of the layout tree, which runs parallel to the style tree: each
/// node holds the box of its style node.
pub struct LayoutNode<'a> {
    pub layout_box: Box,
    pub block_type: BlockType,
    pub content: &'a StyleNode<'a>,
    pub children: Vec<LayoutNode<'a>>,
}

/// `l` is the layout tree of `s`, before layout: each node refers to the
/// style node at the same place, with the box and block type that its
/// declarations give.
pub open spec fn built(l: LayoutNode, s: StyleNode) -> bool
    decreases s,
{
    &&& *l.content == s
    &&& l.layout_box == box_of(decls_view(s.declarations))
    &&& l.block_type == block_type_of(decls_view(s.declarations))
    &&& l.children.len() == s.children.len()
    &&& forall|i: int| 0 <= i < s.children.len() ==> built(#[trigger] l.children[i], s.children[i])
}

/// Builds the layout tree of `style`.
pub fn build_layout_tree<'b>(style: &'b StyleNode<'b>) -> (r: LayoutNode<'b>)
    ensures
        built(r, *style),
    decreases style,
{
    let n = style.children.len();
    let mut children: Vec<LayoutNode<'b>> = Vec::new();
    let mut i: usize = 0;
    while i < n
        invariant
            n == style.children.len(),
            i <= n,
            children.len() == i,
            forall|j: int| 0 <= j < i ==> built(#[trigger] children[j], style.children[j]),
        decreases n - i,
    {
        let child = build_layout_tree(&style.children[i]);
        children.push(child);
        i = i + 1;
    }
    LayoutNode {
        layout_box: style.create_layout_box(),
        block_type: style.get_block_type(),
        content: style,
        children: children,
    }
}

/// `n`, or the largest `u32` where `n` is larger.
pub open spec fn clamp(n: int) -> u32 {
    if n > u32::MAX {
        u32::MAX
    } else if n < 0 {
        0
    } else {
        n as u32
    }
}

/// The padding, border and margin of a box on the left and right together.
pub open spec fn horizontal(b: Box) -> int {
    b.padding.left + b.padding.right + b.border.left + b.border.right + b.margin.left
        + b.margin.right
}

/// The height that a node takes up among its siblings: its content,
/// padding, border and margin from top to bottom. A node that is not a
/// block takes none.
pub open spec fn outer_height(l: LayoutNode) -> int {
    let b = l.layout_box;
    if l.block_type == BlockType::Block {
        b.content.height + b.padding.top + b.padding.bottom + b.border.top + b.border.bottom
            + b.margin.top + b.margin.bottom
    } else {
        0
    }
}

/// The height that the first `i` of `kids` take up.
pub open spec fn heights_before(kids: Seq<LayoutNode>, i: int) -> int
    decreases i,
{
    if i <= 0 {
        0
    } else {
        heights_before(kids, i - 1) + outer_height(kids[i - 1])
    }
}

/// The rectangle in which the child at `i` is laid out: the content of its
/// parent, moved down past the siblings before it.
pub open spec fn child_rect(content: Rectangle, kids: Seq<LayoutNode>, i: int) -> Rectangle {
    Rectangle {
        x: content.x,
        y: clamp(content.y + heights_before(kids, i)),
        width: content.width,
        height: content.height,
    }
}

/// The margin after width layout: the right margin gives way where the
/// box does not fit.
pub open spec fn fitted_margin(b: Box, parent: Rectangle) -> Edges {
    if horizontal(b) > parent.width {
        Edges { top: b.margin.top, bottom: b.margin.bottom, right: 0, left: b.margin.left }
    } else {
        b.margin
    }
}

/// The content width after width layout: the horizontal padding, border
/// and margin together, but no wider than the parent.
pub open spec fn fitted_width(b: Box, parent: Rectangle) -> u32 {
    if horizontal(b) > parent.width {
        parent.width
    } else {
        horizontal(b) as u32
    }
}

/// `new` is `old` laid out in `parent`. A node that is not a block is left
/// as it is. A block gets its width from `fitted_width`, its position from
/// the parent's and its own top and left edges, lays out its children one
/// below the other in its content, and takes their height as its own.
pub open spec fn laid_out(old: LayoutNode, new: LayoutNode, parent: Rectangle) -> bool
    decreases old,
{
    if old.block_type != BlockType::Block {
        new == old
    } else {
        let b = old.layout_box;
        let nb = new.layout_box;
        let placed = Rectangle {
            x: clamp(parent.x + b.padding.left + b.border.left + b.margin.left),
            y: clamp(parent.y + b.padding.top + b.border.top + b.margin.top),
            width: fitted_width(b, parent),
            height: b.content.height,
        };
        &&& new.block_type == old.block_type
        &&& new.content == old.content
        &&& nb.padding == b.padding
        &&& nb.border == b.border
        &&& nb.margin == fitted_margin(b, parent)
        &&& nb.content.x == placed.x
        &&& nb.content.y == placed.y
        &&& nb.content.width == placed.width
        &&& new.children.len() == old.children.len()
        &&& forall|i: int|
            0 <= i < old.children.len() ==> laid_out(
                #[trigger] old.children[i],
                new.children[i],
                child_rect(placed, new.children@, i),
            )
        &&& nb.content.height == clamp(heights_before(new.children@, new.children.len() as int))
    }
}

/// `heights_before` reads only the kids before `i`.
pub proof fn lemma_heights_prefix(a: Seq<LayoutNode>, b: Seq<LayoutNode>, i: int)
    requires
        0 <= i <= a.len(),
        i <= b.len(),
        forall|j: int| 0 <= j < i ==> a[j] == b[j],
    ensures
        heights_before(a, i) == heights_before(b, i),
    decreases i,
{
    if i > 0 {
        lemma_heights_prefix(a, b, i - 1);
    }
}

/// Heights are never negative.
pub proof fn lemma_heights_nonneg(kids: Seq<LayoutNode>, i: int)
    ensures
        0 <= heights_before(kids, i),
    decreases i,
{
    if i > 0 {
        lemma_heights_nonneg(kids, i - 1);
    }
}

/// The three trees have one shape: at every place, the layout node refers
/// to the style node there, which refers to the element there, and all
/// three have as many children, in the same order.
pub open spec fn aligned(l: LayoutNode, s: StyleNode, e: Element) -> bool
    decreases e,
{
    &&& *l.content == s
    &&& *s.element == e
    &&& l.children.len() == e.children.len()
    &&& s.children.len() == e.children.len()
    &&& forall|i: int|
        0 <= i < e.children.len() ==> aligned(
            #[trigger] l.children[i],
            s.children[i],
            e.children[i],
        )
}

/// The number of elements in the tree of `e`.
pub open spec fn dom_size(e: Element) -> nat
    decreases e, e.children.len() + 1,
{
    1 + dom_sizes(e, e.children.len() as int)
}

/// The number of elements in the trees of the first `i` children of `e`.
pub open spec fn dom_sizes(e: Element, i: int) -> nat
    decreases e, i,
{
    if 0 < i <= e.children.len() {
        dom_sizes(e, i - 1) + dom_size(e.children[i - 1])
    } else {
        0
    }
}

/// The number of nodes in the style tree of `s`.
pub open spec fn style_size(s: StyleNode) -> nat
    decreases s, s.children.len() + 1,
{
    1 + style_sizes(s, s.children.len() as int)
}

/// The number of nodes in the style trees of the first `i` children of `s`.
pub open spec fn style_sizes(s: StyleNode, i: int) -> nat
    decreases s, i,
{
    if 0 < i <= s.children.len() {
        style_sizes(s, i - 1) + style_size(s.children[i - 1])
    } else {
        0
    }
}

/// The number of nodes in the layout tree of `l`.
pub open spec fn layout_size(l: LayoutNode) -> nat
    decreases l, l.children.len() + 1,
{
    1 + layout_sizes(l, l.children.len() as int)
}

/// The number of nodes in the layout trees of the first `i` children of `l`.
pub open spec fn layout_sizes(l: LayoutNode, i: int) -> nat
    decreases l, i,
{
    if 0 < i <= l.children.len() {
        layout_sizes(l, i - 1) + layout_size(l.children[i - 1])
    } else {
        0
    }
}

/// Aligned trees have as many nodes.
pub proof fn lemma_aligned_sizes(l: LayoutNode, s: StyleNode, e: Element)
    requires
        aligned(l, s, e),
    ensures
        layout_size(l) == dom_size(e),
        style_size(s) == dom_size(e),
    decreases e, e.children.len() + 1,
{
    lemma_aligned_sizes_upto(l, s, e, e.children.len() as int);
}

/// Aligned trees have as many nodes under their first `i` children.
pub proof fn lemma_aligned_sizes_upto(l: LayoutNode, s: StyleNode, e: Element, i: int)
    requires
        aligned(l, s, e),
        0 <= i <= e.children.len(),
    ensures
        layout_sizes(l, i) == dom_sizes(e, i),
        style_sizes(s, i) == dom_sizes(e, i),
    decreases e, i,
{
    if i > 0 {
        lemma_aligned_sizes_upto(l, s, e, i - 1);
        assert(aligned(l.children[i - 1], s.children[i - 1], e.children[i - 1]));
        lemma_aligned_sizes(l.children[i - 1], s.children[i - 1], e.children[i - 1]);
    }
}

/// Building the style tree of a DOM tree, and the layout tree of that style
/// tree, keeps the DOM tree's shape: node for node and in the same order,
/// so all three trees have as many nodes.
pub proof fn lemma_trees_aligned(e: Element, sheet: StyleSheet, s: StyleNode, l: LayoutNode)
    requires
        styled(s, e, sheet),
        built(l, s),
    ensures
        aligned(l, s, e),
        style_size(s) == dom_size(e),
        layout_size(l) == dom_size(e),
    decreases e,
{
    assert forall|i: int| 0 <= i < e.children.len() implies aligned(
        #[trigger] l.children[i],
        s.children[i],
        e.children[i],
    ) by {
        lemma_trees_aligned(e.children[i], sheet, s.children[i], l.children[i]);
    }
    lemma_aligned_sizes(l, s, e);
}

/// Layout keeps the shape of the layout tree.
pub proof fn lemma_layout_keeps_alignment(
    old: LayoutNode,
    new: LayoutNode,
    parent: Rectangle,
    s: StyleNode,
    e: Element,
)
    requires
        aligned(old, s, e),
        laid_out(old, new, parent),
    ensures
        aligned(new, s, e),
    decreases e,
{
    if old.block_type == BlockType::Block {
        let nb = new.layout_box;
        let b = old.layout_box;
        let placed = Rectangle {
            x: clamp(parent.x + b.padding.left + b.border.left + b.margin.left),
            y: clamp(parent.y + b.padding.top + b.border.top + b.margin.top),
            width: fitted_width(b, parent),
            height: b.content.height,
        };
        assert forall|i: int| 0 <= i < e.children.len() implies aligned(
            #[trigger] new.children[i],
            s.children[i],
            e.children[i],
        ) by {
            assert(laid_out(old.children[i], new.children[i], child_rect(placed, new.children@, i)));
            lemma_layout_keeps_alignment(
                old.children[i],
                new.children[i],
                child_rect(placed, new.children@, i),
                s.children[i],
                e.children[i],
            );
        }
    }
}

impl<'a> LayoutNode<'a> {
    /// Lays out a layout tree: widths on the way down, each no wider than
    /// its parent's, and heights on the way back up, each the sum of the
    /// children's. For the root, `parent_dimension` is the viewport.
    pub fn layout(&mut self, parent_dimension: Rectangle)
        ensures
            laid_out(*old(self), *final(self), parent_dimension),
            old(self).block_type == BlockType::Block ==> final(self).layout_box.content.width
                <= parent_dimension.width,
        decreases *old(self), 1int,
    {
        match self.block_type {
            BlockType::Block => self.layout_block(parent_dimension),
            _ => {},
        }
    }

    /// Lays out a block: its width and position, then its children and its height.
    fn layout_block(&mut self, parent_dimension: Rectangle)
        requires
            old(self).block_type == BlockType::Block,
        ensures
            laid_out(*old(self), *final(self), parent_dimension),
        decreases *old(self), 0int,
    {
        self.calculate_width(parent_dimension);
        self.calculate_position(parent_dimension);
        let ghost placed = self.layout_box.content;
        let n = self.children.len();
        let mut acc: u64 = 0;
        let mut i: usize = 0;
        while i < n
            invariant
                n == self.children.len(),
                n == old(self).children.len(),
                i <= n,
                self.block_type == old(self).block_type,
                self.content == old(self).content,
                self.layout_box.content == placed,
                self.layout_box.padding == old(self).layout_box.padding,
                self.layout_box.border == old(self).layout_box.border,
                self.layout_box.margin == fitted_margin(old(self).layout_box, parent_dimension),
                placed.x == clamp(parent_dimension.x + old(self).layout_box.padding.left
                    + old(self).layout_box.border.left + old(self).layout_box.margin.left),
                placed.y == clamp(parent_dimension.y + old(self).layout_box.padding.top
                    + old(self).layout_box.border.top + old(self).layout_box.margin.top),
                placed.width == fitted_width(old(self).layout_box, parent_dimension),
                placed.height == old(self).layout_box.content.height,
                forall|j: int| i <= j < n ==> #[trigger] self.children[j] == old(self).children[j],
                forall|j: int|
                    0 <= j < i ==> laid_out(
                        #[trigger] old(self).children[j],
                        self.children[j],
                        child_rect(placed, self.children@, j),
                    ),
                acc == clamp(heights_before(self.children@, i as int)),
            decreases n - i,
        {
            let rect = Rectangle {
                x: self.layout_box.content.x,
                y: if self.layout_box.content.y as u64 + acc > u32::MAX as u64 {
                    u32::MAX
                } else {
                    (self.layout_box.content.y as u64 + acc) as u32
                },
                width: self.layout_box.content.width,
                height: self.layout_box.content.height,
            };
            let ghost before = self.children@;
            proof {
                lemma_heights_nonneg(before, i as int);
            }
            assert(rect == child_rect(placed, before, i as int));
            self.children[i].layout(rect);
            let ghost after = self.children@;
            let b = self.children[i].layout_box;
            let h: u64 = if self.children[i].block_type == BlockType::Block {
                b.content.height as u64 + b.padding.top as u64 + b.padding.bottom as u64
                    + b.border.top as u64 + b.border.bottom as u64 + b.margin.top as u64
                    + b.margin.bottom as u64
            } else {
                0
            };
            acc = if acc + h > u32::MAX as u64 {
                u32::MAX as u64
            } else {
                acc + h
            };
            proof {
                assert forall|j: int| 0 <= j <= i implies heights_before(after, j)
                    == heights_before(before, j) by {
                    lemma_heights_prefix(after, before, j);
                }
                assert(heights_before(after, i + 1) == heights_before(after, i as int)
                    + outer_height(after[i as int]));
                assert(h == outer_height(after[i as int]));
            }
            i = i + 1;
        }
        self.layout_box.content.height = acc as u32;
    }

    /// Sets the content width from the horizontal padding, border and
    /// margin, no wider than the parent; where they do not fit, the right
    /// margin gives way.
    fn calculate_width(&mut self, parent_dimension: Rectangle)
        ensures
            final(self).layout_box.content.width == fitted_width(
                old(self).layout_box,
                parent_dimension,
            ),
            final(self).layout_box.margin == fitted_margin(old(self).layout_box, parent_dimension),
            final(self).layout_box.content.x == old(self).layout_box.content.x,
            final(self).layout_box.content.y == old(self).layout_box.content.y,
            final(self).layout_box.content.height == old(self).layout_box.content.height,
            final(self).layout_box.padding == old(self).layout_box.padding,
            final(self).layout_box.border == old(self).layout_box.border,
            final(self).block_type == old(self).block_type,
            final(self).content == old(self).content,
            final(self).children == old(self).children,
    {
        let b = self.layout_box;
        let initial_width: u64 = b.padding.right as u64 + b.padding.left as u64
            + b.border.right as u64 + b.border.left as u64 + b.margin.right as u64
            + b.margin.left as u64;
        if initial_width > parent_dimension.width as u64 {
            self.layout_box.margin.right = 0;
            self.layout_box.content.width = parent_dimension.width;
        } else {
            self.layout_box.content.width = initial_width as u32;
        }
    }

    /// Sets the content position from the parent's and this box's top and
    /// left padding, border and margin.
    fn calculate_position(&mut self, parent_dimension: Rectangle)
        ensures
            final(self).layout_box.content.x == clamp(parent_dimension.x
                + old(self).layout_box.padding.left + old(self).layout_box.border.left
                + old(self).layout_box.margin.left),
            final(self).layout_box.content.y == clamp(parent_dimension.y
                + old(self).layout_box.padding.top + old(self).layout_box.border.top
                + old(self).layout_box.margin.top),
            final(self).layout_box.content.width == old(self).layout_box.content.width,
            final(self).layout_box.content.height == old(self).layout_box.content.height,
            final(self).layout_box.padding == old(self).layout_box.padding,
            final(self).layout_box.border == old(self).layout_box.border,
            final(self).layout_box.margin == old(self).layout_box.margin,
            final(self).block_type == old(self).block_type,
            final(self).content == old(self).content,
            final(self).children == old(self).children,
    {
        let b = self.layout_box;
        let x: u64 = parent_dimension.x as u64 + b.padding.left as u64 + b.border.left as u64
            + b.margin.left as u64;
        let y: u64 = parent_dimension.y as u64 + b.padding.top as u64 + b.border.top as u64
            + b.margin.top as u64;
        self.layout_box.content.x = if x > u32::MAX as u64 {
            u32::MAX
        } else {
            x as u32
        };
        self.layout_box.content.y = if y > u32::MAX as u64 {
            u32::MAX
        } else {
            y as u32
        };
    }
}

} // verus!
