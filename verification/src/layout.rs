use vstd::prelude::*;
use crate::prelude::{Position, Rect, Size, sat_sub};

verus! {

/// How a split divides its area: side by side (`Vertical`) or one above the
/// other (`Horizontal`).
#[derive(Copy, Clone, Debug, PartialEq, Eq, Structural)]
pub enum SplitDirection {
    Horizontal,
    Vertical,
}

/// A node of the pane layout: a split of an area in two, in the proportion
/// `ratio`, or a pane.
pub enum LayoutNode<R> {
    Split { direction: SplitDirection, ratio: R, first: Box<LayoutNode<R>>, second: Box<LayoutNode<R>>, rect: Rect },
    Leaf { pane_id: usize, rect: Rect },
}

/// Why a pane could not be split.
#[derive(Copy, Clone, Debug, PartialEq, Eq, Structural)]
pub enum LayoutError {
    /// No pane has the id asked for.
    PaneNotFound,
}

/// The panes of a layout, each with its area.
pub struct LayoutTree<R> {
    root: LayoutNode<R>,
}

/// The panes under `node` with their areas, first part before second part.
pub open spec fn leaves<R>(node: LayoutNode<R>) -> Seq<(usize, Rect)>
    decreases node,
{
    match node {
        LayoutNode::Leaf { pane_id, rect } => seq![(pane_id, rect)],
        LayoutNode::Split { first, second, .. } => leaves(*first) + leaves(*second),
    }
}

/// The node after splitting the first pane `target` (first part before
/// second part) into itself and a new pane `new_pane_id` over the same area;
/// `None` when no pane is `target`.
pub open spec fn split_spec<R>(node: LayoutNode<R>, target: usize, new_pane_id: usize, direction: SplitDirection, ratio: R) -> Option<LayoutNode<R>>
    decreases node,
{
    match node {
        LayoutNode::Leaf { pane_id, rect } => if pane_id == target {
            Some(LayoutNode::Split {
                direction,
                ratio,
                first: Box::new(LayoutNode::Leaf { pane_id, rect }),
                second: Box::new(LayoutNode::Leaf { pane_id: new_pane_id, rect }),
                rect,
            })
        } else {
            None
        },
        LayoutNode::Split { direction: d, ratio: r, first, second, rect } => match split_spec(*first, target, new_pane_id, direction, ratio) {
            Some(f) => Some(LayoutNode::Split { direction: d, ratio: r, first: Box::new(f), second, rect }),
            None => match split_spec(*second, target, new_pane_id, direction, ratio) {
                Some(s) => Some(LayoutNode::Split { direction: d, ratio: r, first, second: Box::new(s), rect }),
                None => None,
            },
        },
    }
}

/// The extent that a split in `direction` divides: the width of a vertical
/// split, the height of a horizontal one.
pub open spec fn extent(rect: Rect, direction: SplitDirection) -> usize {
    match direction {
        SplitDirection::Vertical => rect.size.width,
        SplitDirection::Horizontal => rect.size.height,
    }
}

/// The area of the first part when the split gives it `w` of the extent.
pub open spec fn first_rect(rect: Rect, direction: SplitDirection, w: usize) -> Rect {
    match direction {
        SplitDirection::Vertical => Rect { position: rect.position, size: Size { width: w, height: rect.size.height } },
        SplitDirection::Horizontal => Rect { position: rect.position, size: Size { width: rect.size.width, height: w } },
    }
}

/// The area of the second part when the split gives the first part `w` of the
/// extent: what remains (clamped at zero), just after the first part.
pub open spec fn second_rect(rect: Rect, direction: SplitDirection, w: usize) -> Rect {
    match direction {
        SplitDirection::Vertical => Rect {
            position: Position { row: rect.position.row, col: (rect.position.col + w) as usize },
            size: Size { width: sat_sub(rect.size.width as int, w as int) as usize, height: rect.size.height },
        },
        SplitDirection::Horizontal => Rect {
            position: Position { row: (rect.position.row + w) as usize, col: rect.position.col },
            size: Size { width: rect.size.width, height: sat_sub(rect.size.height as int, w as int) as usize },
        },
    }
}

/// Where the second part of a split in `direction` starts, counted along the
/// split, when the first part gets `w`.
pub open spec fn second_start(rect: Rect, direction: SplitDirection, w: usize) -> int {
    match direction {
        SplitDirection::Vertical => rect.position.col + w,
        SplitDirection::Horizontal => rect.position.row + w,
    }
}

/// Laying `node` out over `rect` with `first_extent` never computes a
/// position past `usize::MAX`, whatever share `first_extent` gives.
pub open spec fn layout_fits<R, F: Fn(&R, usize) -> usize>(node: LayoutNode<R>, rect: Rect, first_extent: F) -> bool
    decreases node,
{
    match node {
        LayoutNode::Leaf { .. } => true,
        LayoutNode::Split { direction, ratio, first, second, .. } => forall|w: usize|
            #[trigger] call_ensures(first_extent, (&ratio, extent(rect, direction)), w) ==> {
                &&& second_start(rect, direction, w) <= usize::MAX
                &&& layout_fits(*first, first_rect(rect, direction, w), first_extent)
                &&& layout_fits(*second, second_rect(rect, direction, w), first_extent)
            },
    }
}

/// `new` is `old` laid out over `rect`: the same panes and splits, each node
/// with its area, a split giving its first part a share that `first_extent`
/// can return for its ratio and extent, and its second part the rest.
pub open spec fn laid_out<R, F: Fn(&R, usize) -> usize>(old: LayoutNode<R>, new: LayoutNode<R>, rect: Rect, first_extent: F) -> bool
    decreases old,
{
    match (old, new) {
        (LayoutNode::Leaf { pane_id: a, .. }, LayoutNode::Leaf { pane_id: b, rect: r }) => a == b && r == rect,
        (
            LayoutNode::Split { direction: d1, ratio: r1, first: f1, second: s1, .. },
            LayoutNode::Split { direction: d2, ratio: r2, first: f2, second: s2, rect: r },
        ) => {
            &&& d1 == d2
            &&& r1 == r2
            &&& r == rect
            &&& exists|w: usize| {
                &&& #[trigger] call_ensures(first_extent, (&r1, extent(rect, d1)), w)
                &&& laid_out(*f1, *f2, first_rect(rect, d1, w), first_extent)
                &&& laid_out(*s1, *s2, second_rect(rect, d1, w), first_extent)
            }
        },
        _ => false,
    }
}

/// The index of the first pane `target` in `ls`, if any.
pub open spec fn first_index_of(ls: Seq<(usize, Rect)>, target: usize) -> Option<int>
    decreases ls.len(),
{
    if ls.len() == 0 {
        None
    } else if ls[0].0 == target {
        Some(0)
    } else {
        match first_index_of(ls.drop_first(), target) {
            Some(i) => Some(i + 1),
            None => None,
        }
    }
}

/// The pane ids of `ls`, in order.
pub open spec fn pane_ids(ls: Seq<(usize, Rect)>) -> Seq<usize> {
    ls.map_values(|p: (usize, Rect)| p.0)
}

/// The first pane `target` of two lists joined is found in the first list,
/// else in the second one, shifted.
proof fn lemma_first_index_concat(a: Seq<(usize, Rect)>, b: Seq<(usize, Rect)>, target: usize)
    ensures
        first_index_of(a + b, target) == (match first_index_of(a, target) {
            Some(i) => Some(i),
            None => match first_index_of(b, target) {
                Some(j) => Some(a.len() + j),
                None => None,
            },
        }),
    decreases a.len(),
{
    if a.len() > 0 {
        assert((a + b).drop_first() =~= a.drop_first() + b);
        lemma_first_index_concat(a.drop_first(), b, target);
    } else {
        assert(a + b =~= b);
    }
}

/// The first pane `target` found is inside the list and is `target`.
proof fn lemma_first_index_bounds(ls: Seq<(usize, Rect)>, target: usize)
    ensures
        first_index_of(ls, target) matches Some(i) ==> 0 <= i < ls.len() && ls[i].0 == target,
    decreases ls.len(),
{
    if ls.len() > 0 && ls[0].0 != target {
        lemma_first_index_bounds(ls.drop_first(), target);
    }
}

/// Law: splitting a pane succeeds exactly when some pane has the id asked
/// for, and replaces the first such pane, in the list of panes, by itself
/// followed by the new pane over the same area.
pub proof fn lemma_split_panes<R>(node: LayoutNode<R>, target: usize, new_pane_id: usize, direction: SplitDirection, ratio: R)
    ensures
        split_spec(node, target, new_pane_id, direction, ratio) is Some <==> first_index_of(leaves(node), target) is Some,
        split_spec(node, target, new_pane_id, direction, ratio) matches Some(n) ==> {
            let ls = leaves(node);
            let i = first_index_of(ls, target)->0;
            leaves(n) == ls.take(i) + seq![(target, ls[i].1), (new_pane_id, ls[i].1)] + ls.skip(i + 1)
        },
    decreases node,
{
    match node {
        LayoutNode::Leaf { pane_id, rect } => {
            let ls = leaves(node);
            assert(ls =~= seq![(pane_id, rect)]);
            if pane_id == target {
                assert(first_index_of(ls, target) == Some(0int));
                let n = split_spec(node, target, new_pane_id, direction, ratio)->0;
                let l1 = LayoutNode::<R>::Leaf { pane_id, rect };
                let l2 = LayoutNode::<R>::Leaf { pane_id: new_pane_id, rect };
                assert(leaves(l1) == seq![(pane_id, rect)]);
                assert(leaves(l2) == seq![(new_pane_id, rect)]);
                assert(leaves(n) == leaves(l1) + leaves(l2));
                assert(ls.take(0) + seq![(target, rect), (new_pane_id, rect)] + ls.skip(1) =~= leaves(n));
            } else {
                assert(ls.drop_first() =~= Seq::<(usize, Rect)>::empty());
                assert(first_index_of(ls.drop_first(), target) is None);
                assert(first_index_of(ls, target) is None);
            }
        },
        LayoutNode::Split { direction: d, ratio: r, first, second, rect } => {
            lemma_split_panes(*first, target, new_pane_id, direction, ratio);
            lemma_split_panes(*second, target, new_pane_id, direction, ratio);
            let a = leaves(*first);
            let b = leaves(*second);
            lemma_first_index_concat(a, b, target);
            lemma_first_index_bounds(a, target);
            lemma_first_index_bounds(b, target);
            match split_spec(*first, target, new_pane_id, direction, ratio) {
                Some(f) => {
                    let i = first_index_of(a, target)->0;
                    assert((a + b).take(i) =~= a.take(i));
                    assert((a + b)[i] == a[i]);
                    assert(a.take(i) + seq![(target, a[i].1), (new_pane_id, a[i].1)] + a.skip(i + 1) + b =~= (a + b).take(i) + seq![(target, (a + b)[i].1), (new_pane_id, (a + b)[i].1)] + (a + b).skip(i + 1));
                },
                None => {
                    match split_spec(*second, target, new_pane_id, direction, ratio) {
                        Some(s2) => {
                            let j = first_index_of(b, target)->0;
                            let i = a.len() + j;
                            assert((a + b)[i] == b[j]);
                            assert(a + (b.take(j) + seq![(target, b[j].1), (new_pane_id, b[j].1)] + b.skip(j + 1)) =~= (a + b).take(i) + seq![(target, (a + b)[i].1), (new_pane_id, (a + b)[i].1)] + (a + b).skip(i + 1));
                        },
                        None => {},
                    }
                },
            }
        },
    }
}

/// Law: laying panes out keeps the panes and their order.
pub proof fn lemma_layout_keeps_panes<R, F: Fn(&R, usize) -> usize>(old: LayoutNode<R>, new: LayoutNode<R>, rect: Rect, first_extent: F)
    requires
        laid_out(old, new, rect, first_extent),
    ensures
        pane_ids(leaves(new)) == pane_ids(leaves(old)),
    decreases old,
{
    match (old, new) {
        (LayoutNode::Split { direction: d1, ratio: r1, first: f1, second: s1, .. }, LayoutNode::Split { first: f2, second: s2, .. }) => {
            let w = choose|w: usize| {
                &&& #[trigger] call_ensures(first_extent, (&r1, extent(rect, d1)), w)
                &&& laid_out(*f1, *f2, first_rect(rect, d1, w), first_extent)
                &&& laid_out(*s1, *s2, second_rect(rect, d1, w), first_extent)
            };
            lemma_layout_keeps_panes(*f1, *f2, first_rect(rect, d1, w), first_extent);
            lemma_layout_keeps_panes(*s1, *s2, second_rect(rect, d1, w), first_extent);
            assert(pane_ids(leaves(new)) =~= pane_ids(leaves(*f2)) + pane_ids(leaves(*s2)));
            assert(pane_ids(leaves(old)) =~= pane_ids(leaves(*f1)) + pane_ids(leaves(*s1)));
        },
        _ => {},
    }
}

/// `r` lies inside `outer`.
pub open spec fn inside(r: Rect, outer: Rect) -> bool {
    &&& outer.position.row <= r.position.row
    &&& r.position.row + r.size.height <= outer.position.row + outer.size.height
    &&& outer.position.col <= r.position.col
    &&& r.position.col + r.size.width <= outer.position.col + outer.size.width
}

/// Law: when every share that `first_extent` gives is at most the extent it
/// divides, laying panes out over `rect` (whose far edges are positions)
/// puts every pane inside `rect`.
pub proof fn lemma_layout_inside<R, F: Fn(&R, usize) -> usize>(old: LayoutNode<R>, new: LayoutNode<R>, rect: Rect, first_extent: F)
    requires
        laid_out(old, new, rect, first_extent),
        rect.position.row + rect.size.height <= usize::MAX,
        rect.position.col + rect.size.width <= usize::MAX,
        forall|r: &R, n: usize, w: usize| call_ensures(first_extent, (r, n), w) ==> w <= n,
    ensures
        forall|i: int| 0 <= i < leaves(new).len() ==> inside(#[trigger] leaves(new)[i].1, rect),
    decreases old,
{
    match (old, new) {
        (LayoutNode::Split { direction: d1, ratio: r1, first: f1, second: s1, .. }, LayoutNode::Split { first: f2, second: s2, .. }) => {
            let w = choose|w: usize| {
                &&& #[trigger] call_ensures(first_extent, (&r1, extent(rect, d1)), w)
                &&& laid_out(*f1, *f2, first_rect(rect, d1, w), first_extent)
                &&& laid_out(*s1, *s2, second_rect(rect, d1, w), first_extent)
            };
            let fr = first_rect(rect, d1, w);
            let sr = second_rect(rect, d1, w);
            assert(w <= extent(rect, d1));
            assert(inside(fr, rect));
            assert(inside(sr, rect));
            lemma_layout_inside(*f1, *f2, fr, first_extent);
            lemma_layout_inside(*s1, *s2, sr, first_extent);
            let a = leaves(*f2);
            let b = leaves(*s2);
            assert(leaves(new) == a + b);
            assert forall|i: int| 0 <= i < leaves(new).len() implies inside(#[trigger] leaves(new)[i].1, rect) by {
                if i < a.len() {
                    assert(leaves(new)[i] == a[i]);
                    assert(inside(a[i].1, fr));
                } else {
                    assert(leaves(new)[i] == b[i - a.len()]);
                    assert(inside(b[i - a.len()].1, sr));
                }
            }
        },
        _ => {},
    }
}

/// The area of a node.
pub open spec fn node_rect<R>(node: LayoutNode<R>) -> Rect {
    match node {
        LayoutNode::Split { rect, .. } => rect,
        LayoutNode::Leaf { rect, .. } => rect,
    }
}

/// Every split of `node` is tiled by its two parts: the first starts where
/// the split does, the second just after it along the split, both span the
/// split across it, and their extents along it add up to the split's.
pub open spec fn tiled<R>(node: LayoutNode<R>) -> bool
    decreases node,
{
    match node {
        LayoutNode::Leaf { .. } => true,
        LayoutNode::Split { direction, first, second, rect, .. } => {
            let a = node_rect(*first);
            let b = node_rect(*second);
            &&& a.position == rect.position
            &&& match direction {
                SplitDirection::Vertical => {
                    &&& a.size.height == rect.size.height && b.size.height == rect.size.height
                    &&& b.position.row == rect.position.row
                    &&& b.position.col == rect.position.col + a.size.width
                    &&& a.size.width + b.size.width == rect.size.width
                },
                SplitDirection::Horizontal => {
                    &&& a.size.width == rect.size.width && b.size.width == rect.size.width
                    &&& b.position.col == rect.position.col
                    &&& b.position.row == rect.position.row + a.size.height
                    &&& a.size.height + b.size.height == rect.size.height
                },
            }
            &&& tiled(*first)
            &&& tiled(*second)
        },
    }
}

/// Law: when every share that `first_extent` gives is at most the extent it
/// divides, laying panes out over `rect` (whose far edges are positions) gives
/// the root the area `rect` and tiles every split by its two parts.
pub proof fn lemma_layout_tiles<R, F: Fn(&R, usize) -> usize>(old: LayoutNode<R>, new: LayoutNode<R>, rect: Rect, first_extent: F)
    requires
        laid_out(old, new, rect, first_extent),
        rect.position.row + rect.size.height <= usize::MAX,
        rect.position.col + rect.size.width <= usize::MAX,
        forall|r: &R, n: usize, w: usize| call_ensures(first_extent, (r, n), w) ==> w <= n,
    ensures
        node_rect(new) == rect,
        tiled(new),
    decreases old,
{
    match (old, new) {
        (LayoutNode::Split { direction: d1, ratio: r1, first: f1, second: s1, .. }, LayoutNode::Split { first: f2, second: s2, .. }) => {
            let w = choose|w: usize| {
                &&& #[trigger] call_ensures(first_extent, (&r1, extent(rect, d1)), w)
                &&& laid_out(*f1, *f2, first_rect(rect, d1, w), first_extent)
                &&& laid_out(*s1, *s2, second_rect(rect, d1, w), first_extent)
            };
            assert(w <= extent(rect, d1));
            lemma_layout_tiles(*f1, *f2, first_rect(rect, d1, w), first_extent);
            lemma_layout_tiles(*s1, *s2, second_rect(rect, d1, w), first_extent);
        },
        _ => {},
    }
}

impl<R: Copy> Default for LayoutTree<R> {
    /// A layout of one pane, numbered 0, over an empty area at the origin.
    fn default() -> (res: Self)
        ensures
            res.root() == (LayoutNode::<R>::Leaf { pane_id: 0, rect: Rect { position: Position { row: 0, col: 0 }, size: Size { height: 0, width: 0 } } }),
    {
        Self::new(0, Rect { position: Position { row: 0, col: 0 }, size: Size { height: 0, width: 0 } })
    }
}

impl<R: Copy> LayoutTree<R> {
    /// The root of the layout.
    pub closed spec fn root(&self) -> LayoutNode<R> {
        self.root
    }

    /// A layout of one pane, `initial_pane_id`, over `rect`.
    pub fn new(initial_pane_id: usize, rect: Rect) -> (res: Self)
        ensures
            res.root() == (LayoutNode::<R>::Leaf { pane_id: initial_pane_id, rect }),
    {
        LayoutTree { root: LayoutNode::Leaf { pane_id: initial_pane_id, rect } }
    }

    /// Lays the panes out over `rect`: each split gives its first part the
    /// share `first_extent` computes from its ratio and the extent it divides,
    /// and its second part the rest, just after.
    pub fn compute_layout<F: Fn(&R, usize) -> usize>(&mut self, rect: Rect, first_extent: &F)
        requires
            forall|r: &R, n: usize| #[trigger] first_extent.requires((r, n)),
            layout_fits(old(self).root(), rect, *first_extent),
        ensures
            laid_out(old(self).root(), final(self).root(), rect, *first_extent),
    {
        let mut root = LayoutNode::Leaf { pane_id: 0, rect };
        std::mem::swap(&mut root, &mut self.root);
        self.root = Self::compute_node_layout(root, rect, first_extent);
    }

    /// Lays the panes out over `rect` as [`LayoutTree::compute_layout`] does,
    /// when no position computed on the way passes `usize::MAX`; otherwise
    /// fails, changing nothing.
    pub fn try_compute_layout<F: Fn(&R, usize) -> usize>(&mut self, rect: Rect, first_extent: &F) -> (ok: bool)
        requires
            forall|r: &R, n: usize| #[trigger] first_extent.requires((r, n)),
        ensures
            ok ==> laid_out(old(self).root(), final(self).root(), rect, *first_extent),
            !ok ==> !layout_fits(old(self).root(), rect, *first_extent) && final(self).root() == old(self).root(),
    {
        match Self::try_node_layout(&self.root, rect, first_extent) {
            Some(root) => {
                self.root = root;
                true
            },
            None => false,
        }
    }

    fn try_node_layout<F: Fn(&R, usize) -> usize>(node: &LayoutNode<R>, rect: Rect, first_extent: &F) -> (res: Option<LayoutNode<R>>)
        requires
            forall|r: &R, n: usize| #[trigger] first_extent.requires((r, n)),
        ensures
            res matches Some(n) ==> laid_out(*node, n, rect, *first_extent),
            res is None ==> !layout_fits(*node, rect, *first_extent),
        decreases node,
    {
        match node {
            LayoutNode::Leaf { pane_id, .. } => Some(LayoutNode::Leaf { pane_id: *pane_id, rect }),
            LayoutNode::Split { direction, ratio, first, second, .. } => {
                let (first_rect, second_rect) = match direction {
                    SplitDirection::Vertical => {
                        let first_width = first_extent(ratio, rect.size.width);
                        let col = match rect.position.col.checked_add(first_width) {
                            Some(c) => c,
                            None => {
                                proof {
                                    assert(call_ensures(*first_extent, (ratio, extent(rect, *direction)), first_width));
                                }
                                return None;
                            },
                        };
                        (
                            Rect { position: rect.position, size: Size { width: first_width, height: rect.size.height } },
                            Rect {
                                position: Position { row: rect.position.row, col },
                                size: Size { width: rect.size.width.saturating_sub(first_width), height: rect.size.height },
                            },
                        )
                    },
                    SplitDirection::Horizontal => {
                        let first_height = first_extent(ratio, rect.size.height);
                        let row = match rect.position.row.checked_add(first_height) {
                            Some(r) => r,
                            None => {
                                proof {
                                    assert(call_ensures(*first_extent, (ratio, extent(rect, *direction)), first_height));
                                }
                                return None;
                            },
                        };
                        (
                            Rect { position: rect.position, size: Size { width: rect.size.width, height: first_height } },
                            Rect {
                                position: Position { row, col: rect.position.col },
                                size: Size { width: rect.size.width, height: rect.size.height.saturating_sub(first_height) },
                            },
                        )
                    },
                };
                let f = match Self::try_node_layout(first, first_rect, first_extent) {
                    Some(f) => f,
                    None => return None,
                };
                let s = match Self::try_node_layout(second, second_rect, first_extent) {
                    Some(s) => s,
                    None => return None,
                };
                Some(LayoutNode::Split { direction: *direction, ratio: *ratio, first: Box::new(f), second: Box::new(s), rect })
            },
        }
    }

    fn compute_node_layout<F: Fn(&R, usize) -> usize>(node: LayoutNode<R>, rect: Rect, first_extent: &F) -> (res: LayoutNode<R>)
        requires
            forall|r: &R, n: usize| #[trigger] first_extent.requires((r, n)),
            layout_fits(node, rect, *first_extent),
        ensures
            laid_out(node, res, rect, *first_extent),
        decreases node,
    {
        match node {
            LayoutNode::Leaf { pane_id, .. } => LayoutNode::Leaf { pane_id, rect },
            LayoutNode::Split { direction, ratio, first, second, .. } => {
                match direction {
                    SplitDirection::Vertical => {
                        let first_width = first_extent(&ratio, rect.size.width);
                        let second_width = rect.size.width.saturating_sub(first_width);
                        let first_rect = Rect {
                            position: rect.position,
                            size: Size { width: first_width, height: rect.size.height },
                        };
                        let second_rect = Rect {
                            position: Position { row: rect.position.row, col: rect.position.col + first_width },
                            size: Size { width: second_width, height: rect.size.height },
                        };
                        let f = Self::compute_node_layout(*first, first_rect, first_extent);
                        let s = Self::compute_node_layout(*second, second_rect, first_extent);
                        LayoutNode::Split { direction, ratio, first: Box::new(f), second: Box::new(s), rect }
                    },
                    SplitDirection::Horizontal => {
                        let first_height = first_extent(&ratio, rect.size.height);
                        let second_height = rect.size.height.saturating_sub(first_height);
                        let first_rect = Rect {
                            position: rect.position,
                            size: Size { width: rect.size.width, height: first_height },
                        };
                        let second_rect = Rect {
                            position: Position { row: rect.position.row + first_height, col: rect.position.col },
                            size: Size { width: rect.size.width, height: second_height },
                        };
                        let f = Self::compute_node_layout(*first, first_rect, first_extent);
                        let s = Self::compute_node_layout(*second, second_rect, first_extent);
                        LayoutNode::Split { direction, ratio, first: Box::new(f), second: Box::new(s), rect }
                    },
                }
            },
        }
    }

    /// Splits the first pane `target_pane_id` (first parts before second
    /// parts) into itself and a new pane `new_pane_id`, both over its area;
    /// fails, changing nothing, when no pane has that id.
    pub fn split_pane(&mut self, target_pane_id: usize, new_pane_id: usize, direction: SplitDirection, ratio: R) -> (res: Result<(), LayoutError>)
        ensures
            match split_spec(old(self).root(), target_pane_id, new_pane_id, direction, ratio) {
                Some(n) => res is Ok && final(self).root() == n,
                None => res == Err::<(), LayoutError>(LayoutError::PaneNotFound) && final(self).root() == old(self).root(),
            },
    {
        let mut root = LayoutNode::Leaf { pane_id: 0, rect: Rect { position: Position { row: 0, col: 0 }, size: Size { height: 0, width: 0 } } };
        std::mem::swap(&mut root, &mut self.root);
        let (new_root, res) = Self::split_node(root, target_pane_id, new_pane_id, direction, ratio);
        self.root = new_root;
        res
    }

    fn split_node(node: LayoutNode<R>, target_pane_id: usize, new_pane_id: usize, direction: SplitDirection, ratio: R) -> (res: (LayoutNode<R>, Result<(), LayoutError>))
        ensures
            match split_spec(node, target_pane_id, new_pane_id, direction, ratio) {
                Some(n) => res.1 is Ok && res.0 == n,
                None => res.1 == Err::<(), LayoutError>(LayoutError::PaneNotFound) && res.0 == node,
            },
        decreases node,
    {
        match node {
            LayoutNode::Leaf { pane_id, rect } => {
                if pane_id == target_pane_id {
                    let old_leaf = LayoutNode::Leaf { pane_id, rect };
                    let new_leaf = LayoutNode::Leaf { pane_id: new_pane_id, rect };
                    (LayoutNode::Split { direction, ratio, first: Box::new(old_leaf), second: Box::new(new_leaf), rect }, Ok(()))
                } else {
                    (LayoutNode::Leaf { pane_id, rect }, Err(LayoutError::PaneNotFound))
                }
            },
            LayoutNode::Split { direction: d, ratio: r, first, second, rect } => {
                let (f, res) = Self::split_node(*first, target_pane_id, new_pane_id, direction, ratio);
                if res.is_ok() {
                    return (LayoutNode::Split { direction: d, ratio: r, first: Box::new(f), second, rect }, Ok(()));
                }
                let (s, res2) = Self::split_node(*second, target_pane_id, new_pane_id, direction, ratio);
                (LayoutNode::Split { direction: d, ratio: r, first: Box::new(f), second: Box::new(s), rect }, res2)
            },
        }
    }

    /// The panes with their areas, first parts before second parts.
    pub fn collect_leaf_layouts(&self) -> (res: Vec<(usize, Rect)>)
        ensures
            res@ == leaves(self.root()),
    {
        let mut layouts: Vec<(usize, Rect)> = Vec::new();
        Self::collect_layouts(&self.root, &mut layouts);
        layouts
    }

    fn collect_layouts(node: &LayoutNode<R>, layouts: &mut Vec<(usize, Rect)>)
        ensures
            final(layouts)@ == old(layouts)@ + leaves(*node),
        decreases node,
    {
        match node {
            LayoutNode::Leaf { pane_id, rect } => {
                layouts.push((*pane_id, *rect));
            },
            LayoutNode::Split { first, second, .. } => {
                Self::collect_layouts(first, layouts);
                Self::collect_layouts(second, layouts);
                proof {
                    assert(old(layouts)@ + leaves(*node) =~= old(layouts)@ + leaves(**first) + leaves(**second));
                }
            },
        }
    }
}

} // verus!
