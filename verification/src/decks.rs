//! Deck hierarchy flattening.
//!
//! The collection reports decks as a tree.  The presentation layer wants a
//! single ordered list it can render with indentation, so the tree is
//! flattened depth-first into rows that point back at their parent by
//! index: an arena-style list with no object references and no cycles.

use vstd::prelude::*;

verus! {

/// One row of the flattened deck list.  `parent_index` is the position of
/// the row's parent in the same list, or `-1` for a top-level deck.
#[derive(Clone, Debug)]
pub struct DeckNode {
    pub id: i64,
    pub name: String,
    pub level: i32,
    pub collapsed: bool,
    pub new: i32,
    pub learn: i32,
    pub due: i32,
    pub has_children: bool,
    pub parent_index: i32,
}

/// A node of the deck hierarchy as the collection reports it.  The root
/// node stands for the whole collection: it is not listed itself, and its
/// `review_count` is the collection-wide due total.
pub struct DeckTreeNode {
    pub deck_id: i64,
    pub name: String,
    pub level: i32,
    pub collapsed: bool,
    pub new_count: i32,
    pub learn_count: i32,
    pub review_count: i32,
    pub children: Vec<DeckTreeNode>,
}

/// The flattened hierarchy together with the collection-wide due total.
pub struct DeckTree {
    pub due_total: i32,
    pub deck_nodes: Vec<DeckNode>,
}

/// The row a tree node becomes, under the given parent position.
pub open spec fn row_of(n: DeckTreeNode, parent: i32) -> DeckNode {
    DeckNode {
        id: n.deck_id,
        name: n.name,
        level: n.level,
        collapsed: n.collapsed,
        new: n.new_count,
        learn: n.learn_count,
        due: n.review_count,
        has_children: n.children@.len() > 0,
        parent_index: parent,
    }
}

/// Depth-first flattening of the forest `s` from index `i` on: each node
/// becomes a row under `parent`, followed by its own subtree, the next
/// sibling's rows following after.  `base` is the list position the row of
/// `s[i]` will take, so children record their parent's position.
pub open spec fn flat_forest(s: Seq<DeckTreeNode>, i: int, parent: i32, base: int) -> Seq<DeckNode>
    decreases s, s.len() - i,
{
    if i < 0 || i >= s.len() {
        Seq::empty()
    } else {
        let sub = flat_forest(s[i].children@, 0, base as i32, base + 1);
        seq![row_of(s[i], parent)] + sub + flat_forest(s, i + 1, parent, base + 1 + sub.len())
    }
}

/// The rows of the whole hierarchy below the root node.
pub open spec fn flat_tree(root: DeckTreeNode) -> Seq<DeckNode> {
    flat_forest(root.children@, 0, -1i32, 0)
}

/// Append the rows of the forest `children` (all under `parent`) to `out`.
fn flatten_into(children: &Vec<DeckTreeNode>, parent: i32, out: &mut Vec<DeckNode>)
    requires
        old(out)@.len() + flat_forest(
            children@,
            0,
            parent,
            old(out)@.len() as int,
        ).len() <= 0x7fffffff,
    ensures
        final(out)@ == old(out)@ + flat_forest(children@, 0, parent, old(out)@.len() as int),
    decreases children@,
{
    let ghost total = flat_forest(children@, 0, parent, old(out)@.len() as int);
    let mut j: usize = 0;
    proof {
        assert(out@ + flat_forest(children@, 0, parent, out@.len() as int) =~= old(out)@ + total);
    }
    while j < children.len()
        invariant
            old(out)@.len() + total.len() <= 0x7fffffff,
            j <= children@.len(),
            out@ + flat_forest(children@, j as int, parent, out@.len() as int) == old(out)@
                + total,
        decreases children@.len() - j,
    {
        let ghost l = out@.len() as int;
        let ghost rem = flat_forest(children@, j as int, parent, l);
        let ghost sub = flat_forest(children@[j as int].children@, 0, l as i32, l + 1);
        proof {
            assert(rem == seq![row_of(children@[j as int], parent)] + sub + flat_forest(
                children@,
                j + 1,
                parent,
                l + 1 + sub.len(),
            ));
            assert(out@.len() + rem.len() == old(out)@.len() + total.len()) by {
                assert(out@ + rem == old(out)@ + total);
                assert((out@ + rem).len() == out@.len() + rem.len());
                assert((old(out)@ + total).len() == old(out)@.len() + total.len());
            }
        }
        let node = &children[j];
        let idx = out.len() as i32;
        let row = DeckNode {
            id: node.deck_id,
            name: node.name.clone(),
            level: node.level,
            collapsed: node.collapsed,
            new: node.new_count,
            learn: node.learn_count,
            due: node.review_count,
            has_children: node.children.len() > 0,
            parent_index: parent,
        };
        proof {
            assert(row == row_of(children@[j as int], parent));
        }
        out.push(row);
        flatten_into(&node.children, idx, out);
        proof {
            assert(out@ + flat_forest(children@, j + 1, parent, out@.len() as int) =~= old(out)@
                + total);
        }
        j = j + 1;
    }
    proof {
        assert(flat_forest(children@, j as int, parent, out@.len() as int) =~= Seq::<
            DeckNode,
        >::empty());
        assert(out@ =~= out@ + Seq::<DeckNode>::empty());
    }
}

/// In a flattened forest whose rows start at position `base`, every
/// row's parent is `parent` or a row of this forest before it.
proof fn lemma_flat_forest_parents(s: Seq<DeckTreeNode>, i: int, parent: i32, base: int)
    requires
        -1 <= parent < base,
        0 <= base,
        base + flat_forest(s, i, parent, base).len() <= 0x7fffffff,
    ensures
        forall|k: int|
            0 <= k < flat_forest(s, i, parent, base).len() ==> -1 <= (#[trigger] flat_forest(
                s,
                i,
                parent,
                base,
            )[k]).parent_index < base + k,
    decreases s, s.len() - i,
{
    if i < 0 || i >= s.len() {
    } else {
        let f = flat_forest(s, i, parent, base);
        let sub = flat_forest(s[i].children@, 0, base as i32, base + 1);
        let rest = flat_forest(s, i + 1, parent, base + 1 + sub.len());
        assert(f == seq![row_of(s[i], parent)] + sub + rest);
        assert(f.len() == 1 + sub.len() + rest.len());
        lemma_flat_forest_parents(s[i].children@, 0, base as i32, base + 1);
        lemma_flat_forest_parents(s, i + 1, parent, base + 1 + sub.len());
        assert forall|k: int| 0 <= k < f.len() implies -1 <= (#[trigger] f[k]).parent_index < base
            + k by {
            if k == 0 {
                assert(f[0] == row_of(s[i], parent));
            } else if k < 1 + sub.len() {
                assert(f[k] == sub[k - 1]);
            } else {
                assert(f[k] == rest[k - 1 - sub.len()]);
            }
        }
    }
}

/// The flattened deck list is a well-formed arena: every row's
/// `parent_index` is `-1` or the position of an earlier row, so the
/// parent references can hold no cycle.
pub proof fn lemma_flat_tree_parents(root: DeckTreeNode)
    requires
        flat_tree(root).len() <= 0x7fffffff,
    ensures
        forall|k: int|
            0 <= k < flat_tree(root).len() ==> -1 <= (#[trigger] flat_tree(root)[k]).parent_index
                < k,
{
    lemma_flat_forest_parents(root.children@, 0, -1i32, 0);
}

/// Flatten the deck hierarchy below `root` into the ordered row list.
///
/// Rows appear in depth-first order; every row's `parent_index` is the
/// position of its parent row, or `-1` for top-level decks.
pub fn flatten_tree(root: &DeckTreeNode) -> (out: Vec<DeckNode>)
    requires
        flat_tree(*root).len() <= 0x7fffffff,
    ensures
        out@ == flat_tree(*root),
{
    let mut out: Vec<DeckNode> = Vec::new();
    flatten_into(&root.children, -1i32, &mut out);
    out
}

/// The deck hierarchy flattened, with the collection-wide due total the
/// root node carries.
pub fn build_deck_tree(root: &DeckTreeNode) -> (t: DeckTree)
    requires
        flat_tree(*root).len() <= 0x7fffffff,
    ensures
        t.due_total == root.review_count,
        t.deck_nodes@ == flat_tree(*root),
{
    let deck_nodes = flatten_tree(root);
    DeckTree { due_total: root.review_count, deck_nodes }
}

} // verus!
