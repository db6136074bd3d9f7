//! Navigation of the tree map: the folder shown is reached from the root by a
//! path of child indices, which the user extends by opening a tile and
//! shortens with "Up" or a breadcrumb.

use vstd::prelude::*;

use crate::treemap::Node;

verus! {

/// The folder reached from `root` by following the child indices of `zoom`
/// (an index with no such child leaves the folder where it is).
pub open spec fn node_at(root: Node, zoom: Seq<usize>) -> Node
    decreases zoom.len(),
{
    if zoom.len() == 0 {
        root
    } else {
        let n = node_at(root, zoom.drop_last());
        if (zoom.last() as int) < n.children@.len() {
            n.children@[zoom.last() as int]
        } else {
            n
        }
    }
}

/// Every index of `zoom` names an existing child of the folder reached so far.
pub open spec fn is_zoom_path(root: Node, zoom: Seq<usize>) -> bool
    decreases zoom.len(),
{
    zoom.len() == 0 || (is_zoom_path(root, zoom.drop_last()) && (zoom.last() as int) < node_at(
        root,
        zoom.drop_last(),
    ).children@.len())
}

proof fn lemma_zoom_prefix(root: Node, zoom: Seq<usize>, k: int)
    requires
        is_zoom_path(root, zoom),
        0 <= k <= zoom.len(),
    ensures
        is_zoom_path(root, zoom.take(k)),
    decreases zoom.len() - k,
{
    if k == zoom.len() {
        assert(zoom.take(k) =~= zoom);
    } else {
        assert(zoom.drop_last().take(k) =~= zoom.take(k));
        lemma_zoom_prefix(root, zoom.drop_last(), k);
    }
}

/// The folder `zoom` leads to.
fn folder_at<'a>(root: &'a Node, zoom: &Vec<usize>) -> (n: &'a Node)
    requires
        is_zoom_path(*root, zoom@),
    ensures
        *n == node_at(*root, zoom@),
{
    let mut node: &Node = root;
    let mut i: usize = 0;
    while i < zoom.len()
        invariant
            i <= zoom@.len(),
            is_zoom_path(*root, zoom@),
            *node == node_at(*root, zoom@.take(i as int)),
        decreases zoom.len() - i,
    {
        proof {
            lemma_zoom_prefix(*root, zoom@, i + 1);
            assert(zoom@.take(i + 1).drop_last() =~= zoom@.take(i as int));
        }
        node = &node.children[zoom[i]];
        i = i + 1;
    }
    assert(zoom@.take(zoom@.len() as int) =~= zoom@);
    node
}

/// Cuts `zoom` back to its longest prefix that is still a path of the tree
/// (after a rescan the old indices may name folders that are gone).
pub fn trim_zoom(root: &Node, zoom: &mut Vec<usize>)
    ensures
        is_zoom_path(*root, final(zoom)@),
        final(zoom)@.len() <= old(zoom)@.len(),
        final(zoom)@ == old(zoom)@.take(final(zoom)@.len() as int),
        final(zoom)@.len() < old(zoom)@.len() ==> (old(zoom)@[final(zoom)@.len() as int] as int)
            >= node_at(*root, final(zoom)@).children@.len(),
{
    let ghost z = zoom@;
    let mut node: &Node = root;
    let mut depth: usize = 0;
    while depth < zoom.len()
        invariant
            zoom@ == z,
            depth <= z.len(),
            is_zoom_path(*root, z.take(depth as int)),
            *node == node_at(*root, z.take(depth as int)),
        ensures
            depth <= z.len(),
            is_zoom_path(*root, z.take(depth as int)),
            *node == node_at(*root, z.take(depth as int)),
            depth < z.len() ==> (z[depth as int] as int) >= node.children@.len(),
        decreases zoom.len() - depth,
    {
        let i = zoom[depth];
        if i >= node.children.len() {
            break;
        }
        proof {
            assert(z.take(depth + 1).drop_last() =~= z.take(depth as int));
        }
        node = &node.children[i];
        depth = depth + 1;
    }
    zoom.truncate(depth);
    assert(zoom@ =~= z.take(depth as int));
}

/// A navigation request of the tree map.
#[derive(Clone, Copy, Debug, PartialEq, Eq, Structural)]
pub enum ZoomStep {
    /// Back to the parent folder.
    Up,
    /// Back to the breadcrumb at this level (0 is the root).
    Crumb(usize),
    /// Into the tile of this child.
    Open(usize),
}

/// Whether child `i` of the folder `zoom` leads to exists and has subfolders
/// (a tile that can be opened).
pub open spec fn can_open(root: Node, zoom: Seq<usize>, i: usize) -> bool {
    (i as int) < node_at(root, zoom).children@.len()
        && node_at(root, zoom).children@[i as int].children@.len() > 0
}

/// Applies one navigation request: "Up" drops the last step, a breadcrumb
/// keeps the steps up to its level, and opening a tile adds its index when it
/// is a folder with subfolders.
pub fn step_zoom(root: &Node, zoom: &mut Vec<usize>, step: ZoomStep)
    requires
        is_zoom_path(*root, old(zoom)@),
    ensures
        is_zoom_path(*root, final(zoom)@),
        match step {
            ZoomStep::Up => final(zoom)@ == (if old(zoom)@.len() == 0 {
                old(zoom)@
            } else {
                old(zoom)@.drop_last()
            }),
            ZoomStep::Crumb(l) => final(zoom)@ == old(zoom)@.take(
                if (l as int) < old(zoom)@.len() {
                    l as int
                } else {
                    old(zoom)@.len() as int
                },
            ),
            ZoomStep::Open(i) => final(zoom)@ == (if can_open(*root, old(zoom)@, i) {
                old(zoom)@.push(i)
            } else {
                old(zoom)@
            }),
        },
{
    let ghost z = zoom@;
    match step {
        ZoomStep::Up => {
            if zoom.len() > 0 {
                zoom.pop();
                proof {
                    lemma_zoom_prefix(*root, z, z.len() - 1);
                    assert(z.take(z.len() - 1) =~= z.drop_last());
                }
            }
        },
        ZoomStep::Crumb(l) => {
            zoom.truncate(l);
            proof {
                let k = if (l as int) < z.len() {
                    l as int
                } else {
                    z.len() as int
                };
                lemma_zoom_prefix(*root, z, k);
                assert(zoom@ =~= z.take(k));
            }
        },
        ZoomStep::Open(i) => {
            let node = folder_at(root, zoom);
            if i < node.children.len() && node.children[i].children.len() > 0 {
                zoom.push(i);
                assert(zoom@.drop_last() =~= z);
            }
        },
    }
}

} // verus!
