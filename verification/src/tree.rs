//! The shape of the item tree: parent chains and their acyclicity.
//!
//! Every item points at most at one parent.  The tree is well shaped when
//! every parent pointer names an existing folder and every parent chain
//! reaches a root — equivalently, when no item is its own ancestor.  The
//! chain predicates here are fuel-bounded; [`tree_acyclic`] fixes the fuel at
//! one more than the number of items, which the compression lemma shows is
//! always enough for a terminating chain.

use crate::item::{ItemModel, ItemType};
use crate::ItemId;
use vstd::prelude::*;

verus! {

/// True when the parent pointer of `m[id]` names an existing folder, or none.
pub open spec fn parent_ok(m: Map<ItemId, ItemModel>, id: ItemId) -> bool {
    match m[id].parent_id {
        Option::None => true,
        Option::Some(p) => m.contains_key(p) && m[p].item_type == ItemType::Folder,
    }
}

/// True when the parent chain starting at `p` reaches a root within `fuel`
/// steps, every link naming an existing item.
pub open spec fn chain_ok(m: Map<ItemId, ItemModel>, p: Option<ItemId>, fuel: nat) -> bool
    decreases fuel,
{
    match p {
        Option::None => true,
        Option::Some(id) => fuel > 0 && m.contains_key(id) && chain_ok(
            m,
            m[id].parent_id,
            (fuel - 1) as nat,
        ),
    }
}

/// The items visited by the parent chain starting at `p`, within `fuel` steps.
pub open spec fn chain_nodes(m: Map<ItemId, ItemModel>, p: Option<ItemId>, fuel: nat) -> Set<
    ItemId,
>
    decreases fuel,
{
    match p {
        Option::None => Set::empty(),
        Option::Some(id) => if fuel == 0 {
            Set::empty()
        } else {
            chain_nodes(m, m[id].parent_id, (fuel - 1) as nat).insert(id)
        },
    }
}

/// The length of the parent chain starting at `p`, within `fuel` steps.
pub open spec fn chain_len(m: Map<ItemId, ItemModel>, p: Option<ItemId>, fuel: nat) -> nat
    decreases fuel,
{
    match p {
        Option::None => 0,
        Option::Some(id) => if fuel == 0 {
            0
        } else {
            1 + chain_len(m, m[id].parent_id, (fuel - 1) as nat)
        },
    }
}

/// A tree is acyclic when every item's parent chain reaches a root within
/// one step more than the number of items.
pub open spec fn tree_acyclic(m: Map<ItemId, ItemModel>) -> bool {
    forall|id: ItemId| #[trigger]
        m.contains_key(id) ==> chain_ok(m, Option::Some(id), m.dom().len() + 1)
}

/// Once a chain terminates, more fuel changes nothing.
pub proof fn lemma_chain_mono(m: Map<ItemId, ItemModel>, p: Option<ItemId>, f1: nat, f2: nat)
    requires
        chain_ok(m, p, f1),
        f1 <= f2,
    ensures
        chain_ok(m, p, f2),
        chain_nodes(m, p, f2) == chain_nodes(m, p, f1),
        chain_len(m, p, f2) == chain_len(m, p, f1),
    decreases f1,
{
    match p {
        Option::None => {
            assert(chain_nodes(m, p, f2) =~= chain_nodes(m, p, f1));
        },
        Option::Some(id) => {
            lemma_chain_mono(m, m[id].parent_id, (f1 - 1) as nat, (f2 - 1) as nat);
        },
    }
}

/// The nodes of a terminating chain: all exist, each starts a terminating
/// chain no longer than the whole, the set is finite, and its cardinality is
/// the chain length.
pub proof fn lemma_chain_nodes(m: Map<ItemId, ItemModel>, p: Option<ItemId>, f: nat)
    requires
        chain_ok(m, p, f),
    ensures
        forall|x: ItemId| #[trigger] chain_nodes(m, p, f).contains(x) ==> m.contains_key(x)
            && chain_ok(m, Option::Some(x), f) && chain_len(m, Option::Some(x), f) <= chain_len(
            m,
            p,
            f,
        ),
        chain_nodes(m, p, f).finite(),
        chain_nodes(m, p, f).len() == chain_len(m, p, f),
        chain_len(m, p, f) <= f,
    decreases f,
{
    broadcast use vstd::set::group_set_axioms;

    match p {
        Option::None => {},
        Option::Some(id) => {
            let parent = m[id].parent_id;
            let g = (f - 1) as nat;
            lemma_chain_nodes(m, parent, g);
            let pn = chain_nodes(m, parent, g);
            let nodes = chain_nodes(m, p, f);
            assert(nodes == pn.insert(id));
            // Each node of the parent chain keeps its properties at fuel f.
            assert forall|x: ItemId| #[trigger] nodes.contains(x) implies m.contains_key(x)
                && chain_ok(m, Option::Some(x), f) && chain_len(m, Option::Some(x), f)
                <= chain_len(m, p, f) by {
                if x == id {
                    lemma_chain_mono(m, parent, g, g);
                    assert(chain_ok(m, Option::Some(id), f));
                } else {
                    assert(pn.contains(x));
                    lemma_chain_mono(m, Option::Some(x), g, f);
                }
            }
            // The head is fresh: a repeat would give the head's chain a length
            // at most its own tail's, yet it is one longer.
            if pn.contains(id) {
                assert(chain_ok(m, Option::Some(id), g) && chain_len(m, Option::Some(id), g)
                    <= chain_len(m, parent, g));
                lemma_chain_mono(m, Option::Some(id), g, f);
                assert(chain_len(m, Option::Some(id), f) == 1 + chain_len(m, parent, g));
                assert(false);
            }
            assert(nodes.len() == pn.len() + 1);
        },
    }
}

/// A terminating chain terminates within its own length.
pub proof fn lemma_chain_exact_fuel(m: Map<ItemId, ItemModel>, p: Option<ItemId>, f: nat)
    requires
        chain_ok(m, p, f),
    ensures
        chain_ok(m, p, chain_len(m, p, f)),
    decreases f,
{
    match p {
        Option::None => {},
        Option::Some(id) => {
            let parent = m[id].parent_id;
            let g = (f - 1) as nat;
            lemma_chain_exact_fuel(m, parent, g);
            lemma_chain_mono(m, parent, chain_len(m, parent, g), chain_len(m, parent, g));
            assert(chain_len(m, p, f) == 1 + chain_len(m, parent, g));
        },
    }
}

/// A terminating chain terminates within one step more than the number of
/// items of the tree.
pub proof fn lemma_chain_compress(m: Map<ItemId, ItemModel>, p: Option<ItemId>, f: nat)
    requires
        chain_ok(m, p, f),
        m.dom().finite(),
    ensures
        chain_ok(m, p, m.dom().len() + 1),
{
    lemma_chain_nodes(m, p, f);
    assert(chain_nodes(m, p, f).subset_of(m.dom()));
    vstd::set_lib::lemma_len_subset(chain_nodes(m, p, f), m.dom());
    lemma_chain_exact_fuel(m, p, f);
    lemma_chain_mono(m, p, chain_len(m, p, f), m.dom().len() + 1);
}

/// True when two trees agree on every item but `w`.
pub open spec fn agree_except(
    m1: Map<ItemId, ItemModel>,
    m2: Map<ItemId, ItemModel>,
    w: ItemId,
) -> bool {
    forall|x: ItemId|
        x != w ==> (#[trigger] m1.contains_key(x) == m2.contains_key(x) && (m1.contains_key(x)
            ==> m1[x] == m2[x]))
}

/// A chain that avoids the changed item is unchanged.
pub proof fn lemma_chain_avoid(
    m1: Map<ItemId, ItemModel>,
    m2: Map<ItemId, ItemModel>,
    w: ItemId,
    p: Option<ItemId>,
    f: nat,
)
    requires
        agree_except(m1, m2, w),
        chain_ok(m1, p, f),
        !chain_nodes(m1, p, f).contains(w),
    ensures
        chain_ok(m2, p, f),
        chain_nodes(m2, p, f) == chain_nodes(m1, p, f),
    decreases f,
{
    broadcast use vstd::set::group_set_axioms;

    match p {
        Option::None => {
            assert(chain_nodes(m2, p, f) =~= chain_nodes(m1, p, f));
        },
        Option::Some(id) => {
            let g = (f - 1) as nat;
            assert(chain_nodes(m1, p, f).contains(id));
            assert(id != w);
            assert(m2[id] == m1[id]);
            lemma_chain_avoid(m1, m2, w, m1[id].parent_id, g);
            assert(chain_nodes(m2, p, f) =~= chain_nodes(m1, p, f));
        },
    }
}

/// A chain of the old tree still terminates after one item is rewritten,
/// given that the rewritten item's own chain terminates in the new tree: the
/// walk follows the old chain until it meets the rewritten item, then
/// continues along its new chain.
pub proof fn lemma_chain_extend(
    m1: Map<ItemId, ItemModel>,
    m2: Map<ItemId, ItemModel>,
    w: ItemId,
    p: Option<ItemId>,
    f: nat,
    g: nat,
)
    requires
        agree_except(m1, m2, w),
        chain_ok(m1, p, f),
        chain_ok(m2, Option::Some(w), g),
    ensures
        chain_ok(m2, p, f + g),
    decreases f,
{
    match p {
        Option::None => {},
        Option::Some(id) => {
            if id == w {
                lemma_chain_mono(m2, Option::Some(w), g, f + g);
            } else {
                assert(m2[id] == m1[id]);
                lemma_chain_extend(m1, m2, w, m1[id].parent_id, (f - 1) as nat, g);
            }
        },
    }
}

/// Every node of a chain is its head or the parent of some chain node.
pub proof fn lemma_chain_parents(m: Map<ItemId, ItemModel>, p: Option<ItemId>, f: nat)
    requires
        chain_ok(m, p, f),
    ensures
        forall|x: ItemId| #[trigger] chain_nodes(m, p, f).contains(x) ==> p == Option::Some(x)
            || exists|z: ItemId| #[trigger] chain_nodes(m, p, f).contains(z) && m[z].parent_id
            == Option::Some(x),
    decreases f,
{
    broadcast use vstd::set::group_set_axioms;

    match p {
        Option::None => {},
        Option::Some(id) => {
            let parent = m[id].parent_id;
            let g = (f - 1) as nat;
            lemma_chain_parents(m, parent, g);
            assert forall|x: ItemId| #[trigger] chain_nodes(m, p, f).contains(x) implies p
                == Option::Some(x) || exists|z: ItemId| #[trigger] chain_nodes(m, p, f).contains(z)
                && m[z].parent_id == Option::Some(x) by {
                if x != id {
                    assert(chain_nodes(m, parent, g).contains(x));
                    if parent == Option::Some(x) {
                        assert(chain_nodes(m, p, f).contains(id) && m[id].parent_id
                            == Option::Some(x));
                    } else {
                        let z = choose|z: ItemId| #[trigger]
                            chain_nodes(m, parent, g).contains(z) && m[z].parent_id
                                == Option::Some(x);
                        assert(chain_nodes(m, p, f).contains(z));
                    }
                }
            }
        },
    }
}

/// Adding a fresh leaf whose parent, if any, already exists keeps the tree
/// acyclic.
pub proof fn lemma_tree_insert_leaf(m: Map<ItemId, ItemModel>, id_new: ItemId, item: ItemModel)
    requires
        tree_acyclic(m),
        m.dom().finite(),
        !m.contains_key(id_new),
        match item.parent_id {
            Option::None => true,
            Option::Some(p) => m.contains_key(p),
        },
    ensures
        tree_acyclic(m.insert(id_new, item)),
{
    broadcast use vstd::set::group_set_axioms, vstd::map::group_map_axioms;

    let m2 = m.insert(id_new, item);
    let f = m.dom().len() + 1;
    assert(m2.dom() =~= m.dom().insert(id_new));
    assert(m2.dom().len() == m.dom().len() + 1);
    assert(agree_except(m, m2, id_new));
    assert forall|y: ItemId| #[trigger] m2.contains_key(y) implies chain_ok(
        m2,
        Option::Some(y),
        m2.dom().len() + 1,
    ) by {
        if y == id_new {
            match item.parent_id {
                Option::None => {},
                Option::Some(p) => {
                    assert(chain_ok(m, Option::Some(p), f));
                    lemma_chain_nodes(m, Option::Some(p), f);
                    assert(!chain_nodes(m, Option::Some(p), f).contains(id_new));
                    lemma_chain_avoid(m, m2, id_new, Option::Some(p), f);
                    lemma_chain_mono(m2, Option::Some(p), f, m2.dom().len());
                },
            }
            assert(chain_ok(m2, item.parent_id, m2.dom().len()));
            assert(m2[id_new] == item);
        } else {
            assert(chain_ok(m, Option::Some(y), f));
            lemma_chain_nodes(m, Option::Some(y), f);
            assert(!chain_nodes(m, Option::Some(y), f).contains(id_new));
            lemma_chain_avoid(m, m2, id_new, Option::Some(y), f);
            lemma_chain_mono(m2, Option::Some(y), f, m2.dom().len() + 1);
        }
    }
}

/// Rewriting an item without changing its parent keeps the tree acyclic.
pub proof fn lemma_tree_same_shape(m1: Map<ItemId, ItemModel>, m2: Map<ItemId, ItemModel>)
    requires
        m1.dom() == m2.dom(),
        forall|x: ItemId| #[trigger] m1.contains_key(x) ==> m1[x].parent_id == m2[x].parent_id,
        tree_acyclic(m1),
    ensures
        tree_acyclic(m2),
{
    assert forall|y: ItemId| #[trigger] m2.contains_key(y) implies chain_ok(
        m2,
        Option::Some(y),
        m2.dom().len() + 1,
    ) by {
        assert(m1.contains_key(y));
        lemma_chain_shape(m1, m2, Option::Some(y), m1.dom().len() + 1);
    }
}

/// Chains depend only on which items exist and on their parent pointers.
pub proof fn lemma_chain_shape(
    m1: Map<ItemId, ItemModel>,
    m2: Map<ItemId, ItemModel>,
    p: Option<ItemId>,
    f: nat,
)
    requires
        m1.dom() == m2.dom(),
        forall|x: ItemId| #[trigger] m1.contains_key(x) ==> m1[x].parent_id == m2[x].parent_id,
        chain_ok(m1, p, f),
    ensures
        chain_ok(m2, p, f),
    decreases f,
{
    match p {
        Option::None => {},
        Option::Some(id) => {
            assert(m2.contains_key(id) == m1.contains_key(id)) by {
                assert(m1.dom() == m2.dom());
            }
            lemma_chain_shape(m1, m2, m1[id].parent_id, (f - 1) as nat);
        },
    }
}

/// Moving an item under a parent whose chain does not pass through it keeps
/// the tree acyclic.
pub proof fn lemma_tree_reparent(m: Map<ItemId, ItemModel>, id: ItemId, item2: ItemModel)
    requires
        tree_acyclic(m),
        m.dom().finite(),
        m.contains_key(id),
        match item2.parent_id {
            Option::None => true,
            Option::Some(p) => m.contains_key(p) && p != id && !chain_nodes(
                m,
                Option::Some(p),
                m.dom().len() + 1,
            ).contains(id),
        },
    ensures
        tree_acyclic(m.insert(id, item2)),
{
    broadcast use vstd::set::group_set_axioms, vstd::map::group_map_axioms;

    let m2 = m.insert(id, item2);
    let f = m.dom().len() + 1;
    assert(m2.dom() =~= m.dom());
    assert(agree_except(m, m2, id));
    // The moved item's new chain terminates.
    let g: nat = f + 1;
    match item2.parent_id {
        Option::None => {},
        Option::Some(p) => {
            assert(chain_ok(m, Option::Some(p), f));
            lemma_chain_nodes(m, Option::Some(p), f);
            lemma_chain_avoid(m, m2, id, Option::Some(p), f);
            assert(chain_ok(m2, Option::Some(p), f));
        },
    }
    assert(chain_ok(m2, item2.parent_id, f));
    assert(m2[id] == item2);
    assert(((g - 1) as nat) == f);
    assert(chain_ok(m2, Option::Some(id), g));
    assert forall|y: ItemId| #[trigger] m2.contains_key(y) implies chain_ok(
        m2,
        Option::Some(y),
        m2.dom().len() + 1,
    ) by {
        assert(m.contains_key(y));
        assert(chain_ok(m, Option::Some(y), f));
        lemma_chain_extend(m, m2, id, Option::Some(y), f, g);
        lemma_chain_compress(m2, Option::Some(y), f + g);
    }
}

/// Removing an item that is nobody's parent keeps the tree acyclic.
pub proof fn lemma_tree_remove(m: Map<ItemId, ItemModel>, del: ItemId)
    requires
        tree_acyclic(m),
        m.dom().finite(),
        forall|x: ItemId|
            #[trigger] m.contains_key(x) && x != del ==> m[x].parent_id != Option::Some(del),
    ensures
        tree_acyclic(m.remove(del)),
{
    broadcast use vstd::set::group_set_axioms, vstd::map::group_map_axioms;

    let m2 = m.remove(del);
    let f = m.dom().len() + 1;
    assert(m2.dom() =~= m.dom().remove(del));
    assert(agree_except(m, m2, del));
    // No remaining chain passes through the deleted item: it heads no chain
    // here, and no chain node points at it.
    assert forall|y: ItemId| #[trigger] m2.contains_key(y) implies chain_ok(
        m2,
        Option::Some(y),
        m2.dom().len() + 1,
    ) by {
        assert(m.contains_key(y) && y != del);
        assert(chain_ok(m, Option::Some(y), f));
        lemma_chain_nodes(m, Option::Some(y), f);
        lemma_chain_parents(m, Option::Some(y), f);
        if chain_nodes(m, Option::Some(y), f).contains(del) {
            let z = choose|z: ItemId| #[trigger]
                chain_nodes(m, Option::Some(y), f).contains(z) && m[z].parent_id == Option::Some(
                    del,
                );
            assert(m.contains_key(z));
            if z == del {
                // A self-parenting item would head a non-terminating chain.
                assert(chain_ok(m, Option::Some(del), f));
                lemma_self_parent_no_chain(m, del, f);
            }
            assert(false);
        }
        lemma_chain_avoid(m, m2, del, Option::Some(y), f);
        lemma_chain_compress(m2, Option::Some(y), f);
    }
}

/// A self-parenting item heads no terminating chain.
pub proof fn lemma_self_parent_no_chain(m: Map<ItemId, ItemModel>, id: ItemId, f: nat)
    requires
        m[id].parent_id == Option::Some(id),
    ensures
        !chain_ok(m, Option::Some(id), f),
    decreases f,
{
    if f > 0 {
        lemma_self_parent_no_chain(m, id, (f - 1) as nat);
    }
}

} // verus!
