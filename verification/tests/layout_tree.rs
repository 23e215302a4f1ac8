use yonro::layout::{LayoutError, LayoutTree, SplitDirection};
use yonro::prelude::{Position, Rect, Size};

fn rect(row: usize, col: usize, height: usize, width: usize) -> Rect {
    Rect { position: Position { row, col }, size: Size { height, width } }
}

fn percent(ratio: &usize, extent: usize) -> usize {
    extent * *ratio / 100
}

#[test]
fn a_new_layout_has_one_pane() {
    let tree: LayoutTree<usize> = LayoutTree::new(7, rect(1, 2, 3, 4));
    assert_eq!(tree.collect_leaf_layouts(), vec![(7, rect(1, 2, 3, 4))]);
    let tree: LayoutTree<usize> = LayoutTree::default();
    assert_eq!(tree.collect_leaf_layouts(), vec![(0, rect(0, 0, 0, 0))]);
}

#[test]
fn splitting_puts_the_new_pane_after_the_old_one() {
    let mut tree: LayoutTree<usize> = LayoutTree::new(1, rect(0, 0, 24, 80));
    assert_eq!(tree.split_pane(1, 2, SplitDirection::Vertical, 50), Ok(()));
    assert_eq!(
        tree.collect_leaf_layouts(),
        vec![(1, rect(0, 0, 24, 80)), (2, rect(0, 0, 24, 80))]
    );
    assert_eq!(tree.split_pane(9, 3, SplitDirection::Vertical, 50), Err(LayoutError::PaneNotFound));
    assert_eq!(tree.collect_leaf_layouts().len(), 2);
}

#[test]
fn laying_out_divides_each_split() {
    let mut tree: LayoutTree<usize> = LayoutTree::new(1, rect(0, 0, 24, 80));
    tree.split_pane(1, 2, SplitDirection::Vertical, 50).unwrap();
    tree.split_pane(2, 3, SplitDirection::Horizontal, 25).unwrap();
    tree.compute_layout(rect(0, 0, 24, 80), &percent);
    assert_eq!(
        tree.collect_leaf_layouts(),
        vec![(1, rect(0, 0, 24, 40)), (2, rect(0, 40, 6, 40)), (3, rect(6, 40, 18, 40))]
    );
}

#[test]
fn a_share_over_the_whole_leaves_nothing_to_the_second_part() {
    let mut tree: LayoutTree<usize> = LayoutTree::new(1, rect(0, 0, 10, 10));
    tree.split_pane(1, 2, SplitDirection::Vertical, 150).unwrap();
    tree.compute_layout(rect(0, 0, 10, 10), &percent);
    assert_eq!(
        tree.collect_leaf_layouts(),
        vec![(1, rect(0, 0, 10, 15)), (2, rect(0, 15, 10, 0))]
    );
}

#[test]
fn the_first_pane_with_an_id_is_split() {
    let mut tree: LayoutTree<usize> = LayoutTree::new(1, rect(0, 0, 10, 10));
    tree.split_pane(1, 1, SplitDirection::Vertical, 50).unwrap();
    tree.split_pane(1, 5, SplitDirection::Horizontal, 50).unwrap();
    let ids: Vec<usize> = tree.collect_leaf_layouts().iter().map(|p| p.0).collect();
    assert_eq!(ids, vec![1, 5, 1]);
}

#[test]
fn a_layout_that_would_overflow_is_refused() {
    let mut tree: LayoutTree<usize> = LayoutTree::new(1, rect(0, 0, 10, 10));
    tree.split_pane(1, 2, SplitDirection::Vertical, 50).unwrap();
    let huge = |_: &usize, _: usize| usize::MAX;
    assert!(!tree.try_compute_layout(rect(0, 1, 10, 10), &huge));
    assert_eq!(
        tree.collect_leaf_layouts(),
        vec![(1, rect(0, 0, 10, 10)), (2, rect(0, 0, 10, 10))]
    );
    assert!(tree.try_compute_layout(rect(0, 0, 10, 10), &percent));
    assert_eq!(
        tree.collect_leaf_layouts(),
        vec![(1, rect(0, 0, 10, 5)), (2, rect(0, 5, 10, 5))]
    );
}
