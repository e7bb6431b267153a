//! Projection of collected accessibility nodes into AccessKit tree updates.
//!
//! Node ids are carried as the raw `u64` that `accesskit::NodeId` wraps, so
//! that the per-frame trees can be kept in hash maps whose behaviour Verus
//! knows. The nodes themselves stay `accesskit::Node` values.

use vstd::prelude::*;
use std::collections::HashMap;

verus! {

broadcast use vstd::std_specs::hash::group_hash_axioms;

/// `accesskit::Node`, carried through the logic as an opaque value.
#[verifier::external_type_specification]
#[verifier::external_body]
pub struct ExNode(accesskit::Node);

/// The synthetic root id under which every element-projected node is
/// attached.
pub const A11Y_ROOT_ID: u64 = 0;

/// What `accesskit::Node::eq` returns for two nodes (the node type's
/// hand-written `PartialEq`, which compares role, action and flag words and
/// every property value).
pub uninterp spec fn node_eq(a: accesskit::Node, b: accesskit::Node) -> bool;

/// What `accesskit::Node::children` returns for a node, as raw ids.
pub uninterp spec fn node_children(node: accesskit::Node) -> Seq<u64>;

/// The node that `accesskit::Node::set_children` leaves behind when it is
/// given `node` and the ids `children`.
pub uninterp spec fn with_children(node: accesskit::Node, children: Seq<u64>) -> accesskit::Node;

/// `accesskit::Role`, a plain enumeration of public, field-less variants.
/// It is declared with its variants visible, so that verified code can name
/// the role it hands to `accesskit::Node::new`.
#[verifier::external_type_specification]
pub struct ExRole(accesskit::Role);

/// What `accesskit::Node::new` returns for a role.
pub uninterp spec fn fresh_node(role: accesskit::Role) -> accesskit::Node;

/// What `accesskit::Node::role` returns for a node.
pub uninterp spec fn node_role(node: accesskit::Node) -> accesskit::Role;

/// Calls `accesskit::Node::new`. A fresh node has the given role, no
/// children (its property table starts empty), and compares equal to itself
/// (no property is set).
#[verifier::external_body]
fn new_node(role: accesskit::Role) -> (node: accesskit::Node)
    ensures
        node == fresh_node(role),
        node_role(node) == role,
        node_children(node) == Seq::<u64>::empty(),
        node_eq(node, node),
{
    accesskit::Node::new(role)
}

/// Calls `accesskit::Node::set_children` with the given raw ids. The
/// children property then holds exactly those ids, in order; the role is
/// kept, and so is every other property, so a node that compared equal to
/// itself still does.
#[verifier::external_body]
fn set_node_children(node: &mut accesskit::Node, children: &Vec<u64>)
    ensures
        *final(node) == with_children(*old(node), children@),
        node_children(*final(node)) == children@,
        node_role(*final(node)) == node_role(*old(node)),
        node_eq(*old(node), *old(node)) ==> node_eq(*final(node), *final(node)),
{
    let ids: Vec<accesskit::NodeId> = children.iter().map(|c| accesskit::NodeId(*c)).collect();
    node.set_children(ids);
}

/// Calls `accesskit::Node::children`, converting each id to its raw value.
#[verifier::external_body]
fn children_of(node: &accesskit::Node) -> (ids: Vec<u64>)
    ensures
        ids@ == node_children(*node),
{
    node.children().iter().map(|c| c.0).collect()
}

/// Calls `accesskit::Node::clone`, which copies the role, the action and
/// flag words and the property table field by field: the copy is the same
/// value.
#[verifier::external_body]
fn clone_node(node: &accesskit::Node) -> (copy: accesskit::Node)
    ensures
        copy == *node,
{
    node.clone()
}

/// Calls `accesskit::Node::eq` (`a == b`). That comparison covers every
/// property, the children among them: equal nodes have equal children.
#[verifier::external_body]
fn nodes_equal(a: &accesskit::Node, b: &accesskit::Node) -> (eq: bool)
    ensures
        eq == node_eq(*a, *b),
        eq ==> node_children(*a) == node_children(*b),
{
    a == b
}

/// The ids of a list of `(id, node)` entries, in order.
pub open spec fn ids_of(collected: Seq<(u64, accesskit::Node)>) -> Seq<u64> {
    collected.map_values(|e: (u64, accesskit::Node)| e.0)
}

/// `base` with every collected `(id, node)` inserted in order, so that a
/// later entry for the same id replaces an earlier one.
pub open spec fn insert_all(
    base: Map<u64, accesskit::Node>,
    collected: Seq<(u64, accesskit::Node)>,
) -> Map<u64, accesskit::Node>
    decreases collected.len(),
{
    if collected.len() == 0 {
        base
    } else {
        insert_all(base, collected.drop_last()).insert(
            collected.last().0,
            collected.last().1,
        )
    }
}


/// What `insert_all` holds at one id: an id carried by some collected entry
/// maps to the node of the last such entry, any other id keeps its value
/// from `base`.
proof fn lemma_insert_all_at(
    base: Map<u64, accesskit::Node>,
    collected: Seq<(u64, accesskit::Node)>,
    x: u64,
)
    ensures
        insert_all(base, collected).contains_key(x) == (base.contains_key(x) || ids_of(
            collected,
        ).contains(x)),
        ids_of(collected).contains(x) ==> insert_all(base, collected)[x] == insert_all(
            Map::empty(),
            collected,
        )[x],
        !ids_of(collected).contains(x) ==> insert_all(base, collected)[x] == base[x],
    decreases collected.len(),
{
    if collected.len() > 0 {
        let rest = collected.drop_last();
        lemma_insert_all_at(base, rest, x);
        lemma_insert_all_at(Map::empty(), rest, x);
        assert(ids_of(collected) =~= ids_of(rest).push(collected.last().0));
        if ids_of(rest).contains(x) {
            let j = choose|j: int| 0 <= j < ids_of(rest).len() && ids_of(rest)[j] == x;
            assert(ids_of(collected)[j] == x);
        }
        if ids_of(collected).contains(x) && collected.last().0 != x {
            let j = choose|j: int|
                0 <= j < ids_of(collected).len() && ids_of(collected)[j] == x;
            assert(ids_of(rest)[j] == x);
        }
        if collected.last().0 == x {
            assert(ids_of(collected)[collected.len() - 1] == x);
        }
    } else {
        assert(ids_of(collected) =~= Seq::<u64>::empty());
    }
}

/// The value that `base` holds for an id that some collected entry carries
/// does not matter: that entry replaces it.
proof fn lemma_insert_all_overridden(
    base: Map<u64, accesskit::Node>,
    collected: Seq<(u64, accesskit::Node)>,
    k: u64,
    v: accesskit::Node,
)
    requires
        ids_of(collected).contains(k),
    ensures
        insert_all(base.insert(k, v), collected) == insert_all(base, collected),
{
    assert forall|x: u64|
        #![trigger insert_all(base.insert(k, v), collected).contains_key(x)]
        #![trigger insert_all(base, collected).contains_key(x)]
        insert_all(base.insert(k, v), collected).contains_key(x) == insert_all(
            base,
            collected,
        ).contains_key(x) && (insert_all(base, collected).contains_key(x) ==> insert_all(
            base.insert(k, v),
            collected,
        )[x] == insert_all(base, collected)[x]) by {
        lemma_insert_all_at(base.insert(k, v), collected, x);
        lemma_insert_all_at(base, collected, x);
    }
    assert(insert_all(base.insert(k, v), collected) =~= insert_all(base, collected));
}

/// An entry whose id no later entry carries is what `insert_all` holds for
/// that id.
proof fn lemma_insert_all_last_wins(
    base: Map<u64, accesskit::Node>,
    entries: Seq<(u64, accesskit::Node)>,
    i: int,
)
    requires
        0 <= i < entries.len(),
        forall|j: int| i < j < entries.len() ==> #[trigger] entries[j].0 != entries[i].0,
    ensures
        insert_all(base, entries).contains_key(entries[i].0),
        insert_all(base, entries)[entries[i].0] == entries[i].1,
    decreases entries.len(),
{
    if i < entries.len() - 1 {
        let rest = entries.drop_last();
        assert(entries[entries.len() - 1].0 != entries[i].0);
        assert forall|j: int| i < j < rest.len() implies #[trigger] rest[j].0 != rest[i].0 by {
            assert(rest[j] == entries[j]);
        }
        lemma_insert_all_last_wins(base, rest, i);
    }
}

/// With ids that occur once each, every entry's node is what `insert_all`
/// holds for its id.
proof fn lemma_insert_all_unique(
    base: Map<u64, accesskit::Node>,
    entries: Seq<(u64, accesskit::Node)>,
    i: int,
)
    requires
        ids_of(entries).no_duplicates(),
        0 <= i < entries.len(),
    ensures
        insert_all(base, entries).contains_key(entries[i].0),
        insert_all(base, entries)[entries[i].0] == entries[i].1,
    decreases entries.len(),
{
    if i < entries.len() - 1 {
        let rest = entries.drop_last();
        assert(ids_of(rest) =~= ids_of(entries).drop_last());
        assert(ids_of(entries)[i] != ids_of(entries)[entries.len() - 1]);
        assert(ids_of(rest)[i] == entries[i].0);
        lemma_insert_all_unique(base, rest, i);
    }
}

/// Applying `nodes` over the tree `last` gives, for every node of `current`,
/// that node or one that compares equal to it.
pub open spec fn reproduces(
    current: Map<u64, accesskit::Node>,
    last: Map<u64, accesskit::Node>,
    nodes: Seq<(u64, accesskit::Node)>,
) -> bool {
    forall|id: u64|
        #[trigger] current.contains_key(id) ==> {
            &&& insert_all(last, nodes).contains_key(id)
            &&& (insert_all(last, nodes)[id] == current[id] || node_eq(
                insert_all(last, nodes)[id],
                current[id],
            ))
        }
}

/// The synthetic root of a tree whose collected nodes carry the ids
/// `children`: a fresh `Window` node with those children.
pub open spec fn window_root(children: Seq<u64>) -> accesskit::Node {
    with_children(fresh_node(accesskit::Role::Window), children)
}

/// Builds the full per-frame tree map from the collected nodes: every
/// collected node keyed by its id (a later duplicate wins), plus a synthetic
/// `Window` root under `A11Y_ROOT_ID` whose children are the collected ids in
/// order. A collected node with the root id replaces the synthetic root.
pub fn full_tree(collected: Vec<(u64, accesskit::Node)>) -> (tree: HashMap<u64, accesskit::Node>)
    ensures
        tree@ == insert_all(
            Map::empty().insert(A11Y_ROOT_ID, tree@[A11Y_ROOT_ID]),
            collected@,
        ),
        !ids_of(collected@).contains(A11Y_ROOT_ID) ==> {
            &&& tree@[A11Y_ROOT_ID] == window_root(ids_of(collected@))
            &&& node_role(tree@[A11Y_ROOT_ID]) == accesskit::Role::Window
            &&& node_children(tree@[A11Y_ROOT_ID]) == ids_of(collected@)
            &&& node_eq(tree@[A11Y_ROOT_ID], tree@[A11Y_ROOT_ID])
        },
        tree@.contains_key(A11Y_ROOT_ID),
        forall|i: int|
            0 <= i < collected@.len() ==> tree@.contains_key(#[trigger] collected@[i].0),
        forall|k: u64|
            #[trigger] tree@.contains_key(k) ==> k == A11Y_ROOT_ID || exists|i: int|
                0 <= i < collected@.len() && #[trigger] collected@[i].0 == k,
        forall|i: int|
            #![trigger collected@[i]]
            0 <= i < collected@.len() && (forall|j: int|
                i < j < collected@.len() ==> #[trigger] collected@[j].0 != collected@[i].0)
                ==> tree@[collected@[i].0] == collected@[i].1,
        (forall|i: int| 0 <= i < collected@.len() ==> #[trigger] collected@[i].0 != A11Y_ROOT_ID)
            ==> {
            &&& node_role(tree@[A11Y_ROOT_ID]) == accesskit::Role::Window
            &&& node_children(tree@[A11Y_ROOT_ID]).len() == collected@.len()
            &&& forall|i: int|
                0 <= i < collected@.len() ==> node_children(tree@[A11Y_ROOT_ID])[i]
                    == #[trigger] collected@[i].0
        },
{
    let mut child_ids: Vec<u64> = Vec::new();
    let n = collected.len();
    for i in 0..n
        invariant
            n == collected.len(),
            child_ids@ == ids_of(collected@.take(i as int)),
    {
        child_ids.push(collected[i].0);
        proof {
            assert(collected@.take(i + 1) =~= collected@.take(i as int).push(collected@[i as int]));
        }
    }
    proof {
        assert(collected@.take(n as int) =~= collected@);
    }
    let mut root = new_node(accesskit::Role::Window);
    set_node_children(&mut root, &child_ids);
    let ghost root_node = root;

    let mut map: HashMap<u64, accesskit::Node> = HashMap::with_capacity(n.saturating_add(1));
    map.insert(A11Y_ROOT_ID, root);
    let ghost base = map@;
    for entry in it: collected
        invariant
            base == Map::empty().insert(A11Y_ROOT_ID, root_node),
            it.seq() == collected@,
            map@ == insert_all(base, collected@.take(it.index())),
    {
        let (id, node) = entry;
        map.insert(id, node);
        proof {
            assert(collected@.take(it.index() + 1).drop_last() =~= collected@.take(it.index()));
        }
    }
    proof {
        assert(collected@.take(collected@.len() as int) =~= collected@);
        let ids = ids_of(collected@);
        if ids.contains(A11Y_ROOT_ID) {
            lemma_insert_all_overridden(Map::empty(), collected@, A11Y_ROOT_ID, root_node);
            lemma_insert_all_overridden(Map::empty(), collected@, A11Y_ROOT_ID, map@[A11Y_ROOT_ID]);
            assert(Map::empty().insert(A11Y_ROOT_ID, root_node) == base);
        } else {
            lemma_insert_all_at(base, collected@, A11Y_ROOT_ID);
        }
        let c = collected@;
        let tb = Map::empty().insert(A11Y_ROOT_ID, map@[A11Y_ROOT_ID]);
        lemma_insert_all_at(tb, c, A11Y_ROOT_ID);
        assert forall|i: int| 0 <= i < c.len() implies map@.contains_key(#[trigger] c[i].0) by {
            lemma_insert_all_at(tb, c, c[i].0);
            assert(ids[i] == c[i].0);
        }
        assert forall|k: u64| #[trigger] map@.contains_key(k) implies k == A11Y_ROOT_ID || exists|
            i: int,
        | 0 <= i < c.len() && #[trigger] c[i].0 == k by {
            lemma_insert_all_at(tb, c, k);
            if k != A11Y_ROOT_ID {
                let i = choose|i: int| 0 <= i < ids.len() && ids[i] == k;
                assert(c[i].0 == k);
            }
        }
        assert forall|i: int|
            #![trigger c[i]]
            0 <= i < c.len() && (forall|j: int| i < j < c.len() ==> #[trigger] c[j].0 != c[i].0)
                implies map@[c[i].0] == c[i].1 by {
            lemma_insert_all_last_wins(tb, c, i);
        }
        if forall|i: int| 0 <= i < c.len() ==> #[trigger] c[i].0 != A11Y_ROOT_ID {
            if ids.contains(A11Y_ROOT_ID) {
                let i = choose|i: int| 0 <= i < ids.len() && ids[i] == A11Y_ROOT_ID;
                assert(c[i].0 == A11Y_ROOT_ID);
            }
        }
    }
    map
}


/// The tree-wide data of an update: the id of the tree's root node.
pub struct TreeInfo {
    pub root: u64,
}

/// The id of the main (root) tree, as the raw value of the UUID that
/// `accesskit::TreeId::ROOT` wraps (the nil UUID).
pub const ROOT_TREE_ID: u128 = 0;

/// One frame's accessibility update: the new or changed nodes, the tree data
/// when the tree is being declared, the tree the update applies to, and the
/// focused node.
pub struct TreeUpdate {
    pub nodes: Vec<(u64, accesskit::Node)>,
    pub tree: Option<TreeInfo>,
    pub tree_id: u128,
    pub focus: u64,
}

/// Whether the node that `current` holds for `id` belongs in the update:
/// always when the tree is declared, otherwise when `last` has no node for
/// `id` or its node there compares unequal to the current one.
pub open spec fn is_emitted(
    current: Map<u64, accesskit::Node>,
    last: Map<u64, accesskit::Node>,
    declare_tree: bool,
    id: u64,
) -> bool {
    declare_tree || !last.contains_key(id) || !node_eq(last[id], current[id])
}

/// The ids of the nodes of `current` that belong in an update.
pub open spec fn emitted_ids(
    current: Map<u64, accesskit::Node>,
    last: Map<u64, accesskit::Node>,
    declare_tree: bool,
) -> Set<u64> {
    current.dom().filter(|id: u64| is_emitted(current, last, declare_tree, id))
}

/// Whether the tree holds a node other than the synthetic root.
pub open spec fn has_non_root(current: Map<u64, accesskit::Node>) -> bool {
    exists|k: u64| current.contains_key(k) && k != A11Y_ROOT_ID
}

/// The focus rule: the requested node when it is in the tree; otherwise some
/// node of the tree other than the root, when there is one; otherwise the
/// root.
pub open spec fn is_valid_focus(
    current: Map<u64, accesskit::Node>,
    focus_node_id: Option<u64>,
    focus: u64,
) -> bool {
    if focus_node_id is Some && current.contains_key(focus_node_id->0) {
        focus == focus_node_id->0
    } else if has_non_root(current) {
        current.contains_key(focus) && focus != A11Y_ROOT_ID
    } else {
        focus == A11Y_ROOT_ID
    }
}

/// The keys of `current` in the order its keys iterator yields them.
pub open spec fn key_order(current: &HashMap<u64, accesskit::Node>) -> Seq<u64> {
    vstd::std_specs::hash::into_iter_keys(vstd::std_specs::hash::spec_keys_iter(current))
}

/// The first key in `keys` other than the synthetic root, if any.
pub open spec fn first_non_root(keys: Seq<u64>) -> Option<u64>
    decreases keys.len(),
{
    if keys.len() == 0 {
        None
    } else if keys[0] != A11Y_ROOT_ID {
        Some(keys[0])
    } else {
        first_non_root(keys.drop_first())
    }
}

/// The children of the tree's root, in order; none when the tree has no
/// root.
pub open spec fn root_children(current: Map<u64, accesskit::Node>) -> Seq<u64> {
    if current.contains_key(A11Y_ROOT_ID) {
        node_children(current[A11Y_ROOT_ID])
    } else {
        Seq::empty()
    }
}

/// Whether `id` names a node of the tree other than the root.
pub open spec fn is_live_non_root(current: Map<u64, accesskit::Node>, id: u64) -> bool {
    current.contains_key(id) && id != A11Y_ROOT_ID
}

/// The first id in `ids` that names a node of the tree other than the root.
pub open spec fn first_live(ids: Seq<u64>, current: Map<u64, accesskit::Node>) -> Option<u64>
    decreases ids.len(),
{
    if ids.len() == 0 {
        None
    } else if is_live_non_root(current, ids[0]) {
        Some(ids[0])
    } else {
        first_live(ids.drop_first(), current)
    }
}

/// The focused node of an update: the requested node when the tree holds
/// it; else the root's first child that is in the tree (for a tree that
/// `full_tree` built, the first collected node); else, for a tree whose root
/// lists no such child, the first non-root key in the map's iteration
/// order; else the root.
pub open spec fn chosen_focus(
    current: &HashMap<u64, accesskit::Node>,
    focus_node_id: Option<u64>,
) -> u64 {
    if focus_node_id is Some && current@.contains_key(focus_node_id->0) {
        focus_node_id->0
    } else {
        match first_live(root_children(current@), current@) {
            Some(k) => k,
            None => match first_non_root(key_order(current)) {
                Some(k) => k,
                None => A11Y_ROOT_ID,
            },
        }
    }
}

/// `first_live` of a sequence whose first `i` entries are not live.
proof fn lemma_first_live_after(ids: Seq<u64>, current: Map<u64, accesskit::Node>, i: int)
    requires
        0 <= i <= ids.len(),
        forall|j: int| 0 <= j < i ==> !is_live_non_root(current, #[trigger] ids[j]),
    ensures
        i < ids.len() && is_live_non_root(current, ids[i]) ==> first_live(ids, current) == Some(
            ids[i],
        ),
        i == ids.len() ==> first_live(ids, current) is None,
    decreases i,
{
    if i > 0 {
        let rest = ids.drop_first();
        assert forall|j: int| 0 <= j < i - 1 implies !is_live_non_root(current, #[trigger] rest[j]) by {
            assert(rest[j] == ids[j + 1]);
        }
        lemma_first_live_after(rest, current, i - 1);
        if i < ids.len() {
            assert(rest[i - 1] == ids[i]);
        }
    }
}

/// What `first_live` returns is a live non-root node.
proof fn lemma_first_live_is_live(ids: Seq<u64>, current: Map<u64, accesskit::Node>)
    ensures
        first_live(ids, current) matches Some(k) ==> is_live_non_root(current, k),
    decreases ids.len(),
{
    if ids.len() > 0 {
        lemma_first_live_is_live(ids.drop_first(), current);
    }
}

/// `first_non_root` of a sequence whose first `i` entries are the root.
proof fn lemma_first_non_root_after_roots(keys: Seq<u64>, i: int)
    requires
        0 <= i <= keys.len(),
        forall|j: int| 0 <= j < i ==> keys[j] == A11Y_ROOT_ID,
    ensures
        i < keys.len() && keys[i] != A11Y_ROOT_ID ==> first_non_root(keys) == Some(keys[i]),
        i == keys.len() ==> first_non_root(keys) is None,
    decreases i,
{
    if i > 0 {
        let rest = keys.drop_first();
        assert forall|j: int| 0 <= j < i - 1 implies rest[j] == A11Y_ROOT_ID by {
            assert(rest[j] == keys[j + 1]);
        }
        lemma_first_non_root_after_roots(rest, i - 1);
        if i < keys.len() {
            assert(rest[i - 1] == keys[i]);
        }
    } else if keys.len() == 0 {
    }
}

/// The first key of `current`, in the map's iteration order, other than the
/// synthetic root; `None` when the root is the only key.
fn first_non_root_key(current: &HashMap<u64, accesskit::Node>) -> (key: Option<u64>)
    ensures
        key == first_non_root(key_order(current)),
        key is Some <==> has_non_root(current@),
        key matches Some(k) ==> current@.contains_key(k) && k != A11Y_ROOT_ID,
{
    let ghost keys = vstd::std_specs::iter::IteratorSpec::remaining(
        &vstd::std_specs::hash::spec_keys_iter(current),
    );
    for k in it: current.keys()
        invariant
            it.seq() == keys,
            keys.unref() == key_order(current),
            keys.unref().to_set() == current@.dom(),
            forall|j: int| 0 <= j < it.index() ==> *keys[j] == A11Y_ROOT_ID,
    {
        if *k != A11Y_ROOT_ID {
            proof {
                assert(keys.unref()[it.index()] == *k);
                assert(keys.unref().contains(*k));
                assert(keys.unref().to_set().contains(*k));
                assert(current@.contains_key(*k));
                assert forall|j: int| 0 <= j < it.index() implies keys.unref()[j]
                    == A11Y_ROOT_ID by {
                    assert(keys.unref()[j] == *keys[j]);
                }
                lemma_first_non_root_after_roots(keys.unref(), it.index());
            }
            return Some(*k);
        }
    }
    proof {
        assert forall|j: int| 0 <= j < keys.unref().len() implies keys.unref()[j]
            == A11Y_ROOT_ID by {
            assert(keys.unref()[j] == *keys[j]);
        }
        lemma_first_non_root_after_roots(keys.unref(), keys.unref().len() as int);
        if has_non_root(current@) {
            let k = choose|k: u64| current@.contains_key(k) && k != A11Y_ROOT_ID;
            assert(keys.unref().to_set().contains(k));
            let j = choose|j: int| 0 <= j < keys.unref().len() && #[trigger] keys.unref()[j] == k;
            assert(*keys[j] == A11Y_ROOT_ID);
        }
    }
    None
}

/// The entries of `current` that belong in an update (see `is_emitted`),
/// each once, in the map's iteration order.
fn emitted_nodes(
    current: &HashMap<u64, accesskit::Node>,
    last: &HashMap<u64, accesskit::Node>,
    declare_tree: bool,
) -> (nodes: Vec<(u64, accesskit::Node)>)
    ensures
        forall|i: int|
            #![trigger nodes@[i]]
            0 <= i < nodes@.len() ==> {
                &&& current@.contains_key(nodes@[i].0)
                &&& nodes@[i].1 == current@[nodes@[i].0]
                &&& is_emitted(current@, last@, declare_tree, nodes@[i].0)
            },
        forall|id: u64|
            current@.contains_key(id) && is_emitted(current@, last@, declare_tree, id)
                ==> #[trigger] ids_of(nodes@).contains(id),
        ids_of(nodes@).no_duplicates(),
        forall|id: u64|
            #![trigger node_children(last@[id]), node_children(current@[id])]
            current@.contains_key(id) && last@.contains_key(id) && !is_emitted(
                current@,
                last@,
                declare_tree,
                id,
            ) ==> node_children(last@[id]) == node_children(current@[id]),
{
    let ghost entries = vstd::std_specs::iter::IteratorSpec::remaining(
        &vstd::std_specs::hash::spec_hash_map_iter(current),
    );
    let mut nodes: Vec<(u64, accesskit::Node)> = Vec::new();
    for entry in it: current.iter()
        invariant
            it.seq() == entries,
            entries.no_duplicates(),
            forall|j: int|
                #![trigger entries[j]]
                0 <= j < entries.len() ==> current@.contains_key(*entries[j].0)
                    && current@[*entries[j].0] == *entries[j].1,
            forall|k: u64|
                #[trigger] current@.contains_key(k) ==> entries.contains((&k, &current@[k])),
            forall|i: int|
                #![trigger nodes@[i]]
                0 <= i < nodes@.len() ==> {
                    &&& current@.contains_key(nodes@[i].0)
                    &&& nodes@[i].1 == current@[nodes@[i].0]
                    &&& is_emitted(current@, last@, declare_tree, nodes@[i].0)
                    &&& exists|j: int| #![trigger entries[j]] 0 <= j < it.index() && *entries[j].0 == nodes@[i].0
                },
            forall|j: int|
                #![trigger entries[j]]
                0 <= j < it.index() && is_emitted(current@, last@, declare_tree, *entries[j].0)
                    ==> ids_of(nodes@).contains(*entries[j].0),
            ids_of(nodes@).no_duplicates(),
            forall|j: int|
                #![trigger entries[j]]
                0 <= j < it.index() && last@.contains_key(*entries[j].0) && !is_emitted(
                    current@,
                    last@,
                    declare_tree,
                    *entries[j].0,
                ) ==> node_children(last@[*entries[j].0]) == node_children(current@[*entries[j].0]),
    {
        let (id, node) = entry;
        let emit = if declare_tree {
            true
        } else {
            match last.get(id) {
                Some(prev) => !nodes_equal(prev, node),
                None => true,
            }
        };
        let ghost old_nodes = nodes@;
        if emit {
            let copy = clone_node(node);
            nodes.push((*id, copy));
            proof {
                assert(ids_of(nodes@) =~= ids_of(old_nodes).push(*id));
                assert forall|i: int| 0 <= i < old_nodes.len() implies old_nodes[i].0 != *id by {
                    let j = choose|j: int| #![trigger entries[j]] 0 <= j < it.index() && *entries[j].0 == old_nodes[i].0;
                    let jj = it.index();
                    assert(entries[jj] == (id, node));
                    assert(0 <= j < jj < entries.len());
                    assert(current@[*entries[j].0] == *entries[j].1);
                    assert(current@[*entries[jj].0] == *entries[jj].1);
                    if old_nodes[i].0 == *id {
                        assert(entries[j].0 == entries[jj].0);
                        assert(entries[j].1 == entries[jj].1);
                        assert(entries[j] == entries[jj]);
                        assert(false);
                    }
                }
                assert forall|i: int, k: int|
                    0 <= i < k < ids_of(nodes@).len() implies ids_of(nodes@)[i]
                    != ids_of(nodes@)[k] by {
                    if k == old_nodes.len() {
                        assert(ids_of(nodes@)[i] == old_nodes[i].0);
                    } else {
                        assert(ids_of(nodes@)[i] == ids_of(old_nodes)[i]);
                        assert(ids_of(nodes@)[k] == ids_of(old_nodes)[k]);
                    }
                }
                assert forall|i: int| 0 <= i < nodes@.len() implies exists|j: int|
                    #![trigger entries[j]]
                    0 <= j < it.index() + 1 && *entries[j].0 == #[trigger] nodes@[i].0 by {
                    if i < old_nodes.len() {
                        let j = choose|j: int| #![trigger entries[j]] 0 <= j < it.index() && *entries[j].0 == old_nodes[i].0;
                        assert(*entries[j].0 == nodes@[i].0);
                    } else {
                        assert(*entries[it.index()].0 == nodes@[i].0);
                    }
                }
                assert forall|j: int|
                    0 <= j < it.index() + 1 && is_emitted(
                        current@,
                        last@,
                        declare_tree,
                        #[trigger] *entries[j].0,
                    ) implies ids_of(nodes@).contains(*entries[j].0) by {
                    if j < it.index() {
                        let i = choose|i: int|
                            0 <= i < ids_of(old_nodes).len() && ids_of(old_nodes)[i]
                                == *entries[j].0;
                        assert(ids_of(nodes@)[i] == *entries[j].0);
                    } else {
                        assert(ids_of(nodes@)[old_nodes.len() as int] == *entries[j].0);
                    }
                }
            }
        }
    }
    proof {
        assert forall|id: u64|
            current@.contains_key(id) && is_emitted(current@, last@, declare_tree, id)
                implies #[trigger] ids_of(nodes@).contains(id) by {
            assert(entries.contains((&id, &current@[id])));
            let j = choose|j: int| 0 <= j < entries.len() && entries[j] == (&id, &current@[id]);
            assert(*entries[j].0 == id);
        }
        assert forall|id: u64|
            #![trigger node_children(last@[id]), node_children(current@[id])]
            current@.contains_key(id) && last@.contains_key(id) && !is_emitted(
                current@,
                last@,
                declare_tree,
                id,
            ) implies node_children(last@[id]) == node_children(current@[id]) by {
            assert(entries.contains((&id, &current@[id])));
            let j = choose|j: int| 0 <= j < entries.len() && entries[j] == (&id, &current@[id]);
            assert(*entries[j].0 == id);
        }
    }
    nodes
}


/// The root's first child that is a node of the tree other than the root.
fn first_live_child(current: &HashMap<u64, accesskit::Node>) -> (child: Option<u64>)
    ensures
        child == first_live(root_children(current@), current@),
{
    match current.get(&A11Y_ROOT_ID) {
        None => {
            proof {
                lemma_first_live_after(root_children(current@), current@, 0);
            }
            None
        },
        Some(root) => {
            let kids = children_of(root);
            let n = kids.len();
            for i in 0..n
                invariant
                    n == kids@.len(),
                    kids@ == root_children(current@),
                    forall|j: int| 0 <= j < i ==> !is_live_non_root(current@, #[trigger] kids@[j]),
            {
                let k = kids[i];
                if k != A11Y_ROOT_ID && current.contains_key(&k) {
                    proof {
                        lemma_first_live_after(kids@, current@, i as int);
                    }
                    return Some(k);
                }
            }
            proof {
                lemma_first_live_after(kids@, current@, n as int);
            }
            None
        },
    }
}

/// The focused node of an update; see `chosen_focus`.
fn pick_focus(current: &HashMap<u64, accesskit::Node>, focus_node_id: Option<u64>) -> (focus: u64)
    ensures
        focus == chosen_focus(current, focus_node_id),
        is_valid_focus(current@, focus_node_id, focus),
{
    let requested = match focus_node_id {
        Some(id) => if current.contains_key(&id) {
            Some(id)
        } else {
            None
        },
        None => None,
    };
    match requested {
        Some(id) => id,
        None => match first_live_child(current) {
            Some(k) => {
                proof {
                    lemma_first_live_is_live(root_children(current@), current@);
                }
                k
            },
            None => match first_non_root_key(current) {
                Some(k) => k,
                None => A11Y_ROOT_ID,
            },
        },
    }
}

/// Computes the update that brings the tree `last` to `current`.
///
/// With `declare_tree` the update carries every node of `current` and the
/// tree data (root `A11Y_ROOT_ID`); otherwise it carries only the nodes of
/// `current` that `last` lacks or holds with an unequal value, and no tree
/// data. Nodes that `last` has and `current` lacks are not listed: they are
/// dropped through their parent's updated children. Each node is listed once,
/// in the map's iteration order. The update applies to the main tree. The
/// focus follows `chosen_focus`, which meets `is_valid_focus`.
pub fn diff_tree_update(
    current: &HashMap<u64, accesskit::Node>,
    last: &HashMap<u64, accesskit::Node>,
    declare_tree: bool,
    focus_node_id: Option<u64>,
) -> (update: TreeUpdate)
    ensures
        ids_of(update.nodes@).to_set() == emitted_ids(current@, last@, declare_tree),
        ids_of(update.nodes@).no_duplicates(),
        forall|i: int|
            #![trigger update.nodes@[i]]
            0 <= i < update.nodes@.len() ==> update.nodes@[i].1 == current@[update.nodes@[i].0],
        forall|id: u64|
            #![trigger node_children(last@[id]), node_children(current@[id])]
            current@.contains_key(id) && last@.contains_key(id) && node_children(last@[id])
                != node_children(current@[id]) ==> emitted_ids(current@, last@, declare_tree).contains(
                id,
            ),
        update.tree == (if declare_tree {
            Some(TreeInfo { root: A11Y_ROOT_ID })
        } else {
            None
        }),
        update.tree_id == ROOT_TREE_ID,
        update.focus == chosen_focus(current, focus_node_id),
        is_valid_focus(current@, focus_node_id, update.focus),
        reproduces(current@, last@, update.nodes@),
        forall|i: int|
            #![trigger update.nodes@[i]]
            0 <= i < update.nodes@.len() ==> {
                &&& current@.contains_key(update.nodes@[i].0)
                &&& (declare_tree || !last@.contains_key(update.nodes@[i].0) || !node_eq(
                    last@[update.nodes@[i].0],
                    current@[update.nodes@[i].0],
                ))
            },
        forall|id: u64|
            #![trigger current@.contains_key(id)]
            current@.contains_key(id) && (declare_tree || !last@.contains_key(id) || !node_eq(
                last@[id],
                current@[id],
            )) ==> exists|i: int|
                #![trigger update.nodes@[i]]
                0 <= i < update.nodes@.len() && update.nodes@[i].0 == id,
        forall|i: int, j: int|
            0 <= i < j < update.nodes@.len() ==> #[trigger] update.nodes@[i].0
                != #[trigger] update.nodes@[j].0,
        focus_node_id is Some && current@.contains_key(focus_node_id->0) ==> update.focus
            == focus_node_id->0,
        current@.contains_key(A11Y_ROOT_ID) ==> current@.contains_key(update.focus),
{
    let nodes = emitted_nodes(current, last, declare_tree);
    let focus = pick_focus(current, focus_node_id);
    let tree = if declare_tree {
        Some(TreeInfo { root: A11Y_ROOT_ID })
    } else {
        None
    };
    proof {
        let ids = ids_of(nodes@);
        assert forall|x: u64| ids.to_set().contains(x) == emitted_ids(
            current@,
            last@,
            declare_tree,
        ).contains(x) by {
            if ids.to_set().contains(x) {
                let i = choose|i: int| 0 <= i < ids.len() && ids[i] == x;
                assert(nodes@[i].0 == x);
            }
            if emitted_ids(current@, last@, declare_tree).contains(x) {
                assert(ids.contains(x));
            }
        }
        assert(ids.to_set() =~= emitted_ids(current@, last@, declare_tree));
        assert forall|id: u64| #[trigger] current@.contains_key(id) implies {
            &&& insert_all(last@, nodes@).contains_key(id)
            &&& (insert_all(last@, nodes@)[id] == current@[id] || node_eq(
                insert_all(last@, nodes@)[id],
                current@[id],
            ))
        } by {
            lemma_insert_all_at(last@, nodes@, id);
            if is_emitted(current@, last@, declare_tree, id) {
                assert(emitted_ids(current@, last@, declare_tree).contains(id));
                assert(ids.to_set().contains(id));
                let i = choose|i: int| 0 <= i < ids.len() && ids[i] == id;
                assert(nodes@[i].0 == id);
                lemma_insert_all_unique(last@, nodes@, i);
            } else {
                assert(!emitted_ids(current@, last@, declare_tree).contains(id));
                assert(!ids.to_set().contains(id));
                if ids.contains(id) {
                    assert(ids.to_set().contains(id));
                }
            }
        }
        assert forall|i: int| 0 <= i < nodes@.len() implies {
            &&& current@.contains_key(#[trigger] nodes@[i].0)
            &&& (declare_tree || !last@.contains_key(nodes@[i].0) || !node_eq(
                last@[nodes@[i].0],
                current@[nodes@[i].0],
            ))
        } by {
            assert(ids[i] == nodes@[i].0);
            assert(ids.to_set().contains(ids[i]));
        }
        assert forall|id: u64|
            #[trigger] current@.contains_key(id) && (declare_tree || !last@.contains_key(id)
                || !node_eq(last@[id], current@[id])) implies exists|i: int|
            #![trigger nodes@[i]]
            0 <= i < nodes@.len() && nodes@[i].0 == id by {
            assert(emitted_ids(current@, last@, declare_tree).contains(id));
            assert(ids.to_set().contains(id));
            let i = choose|i: int| 0 <= i < ids.len() && ids[i] == id;
            assert(nodes@[i].0 == id);
            assert(0 <= i < nodes@.len() && nodes@[i].0 == id);
        }
    }
    let update = TreeUpdate { nodes, tree, tree_id: ROOT_TREE_ID, focus };
    proof {
        assert(update.nodes@ == nodes@);
        let ids = ids_of(update.nodes@);
        assert forall|i: int, j: int|
            0 <= i < j < update.nodes@.len() implies #[trigger] update.nodes@[i].0
            != #[trigger] update.nodes@[j].0 by {
            assert(ids[i] == update.nodes@[i].0);
            assert(ids[j] == update.nodes@[j].0);
        }
        if current@.contains_key(A11Y_ROOT_ID) {
            focus_is_a_tree_node(current@, focus_node_id, update.focus);
        }
    }
    update
}


/// Law: an update that does not declare the tree lists exactly the nodes of
/// the current tree that the last tree lacks or holds with a value comparing
/// unequal; a node that the last tree holds with an equal value is left out.
pub proof fn undeclared_update_lists_only_changed_nodes(
    current: Map<u64, accesskit::Node>,
    last: Map<u64, accesskit::Node>,
    id: u64,
)
    ensures
        emitted_ids(current, last, false).contains(id) <==> (current.contains_key(id) && (
        !last.contains_key(id) || !node_eq(last[id], current[id]))),
        last.contains_key(id) && node_eq(last[id], current[id]) ==> !emitted_ids(
            current,
            last,
            false,
        ).contains(id),
{
}

/// Law: an update that declares the tree lists every node of the tree.
pub proof fn declared_update_lists_every_node(
    current: Map<u64, accesskit::Node>,
    last: Map<u64, accesskit::Node>,
)
    ensures
        emitted_ids(current, last, true) == current.dom(),
{
    assert(emitted_ids(current, last, true) =~= current.dom());
}

/// Law: diffing a tree against itself lists no node, provided every node
/// compares equal to itself (a node holding a NaN number does not).
pub proof fn unchanged_tree_diff_is_empty(current: Map<u64, accesskit::Node>)
    requires
        forall|k: u64| #[trigger] current.contains_key(k) ==> node_eq(current[k], current[k]),
    ensures
        emitted_ids(current, current, false) == Set::<u64>::empty(),
{
    assert(emitted_ids(current, current, false) =~= Set::<u64>::empty());
}

/// Law: in a tree built from collected nodes under a root whose children are
/// their ids (none of them the root id), the focus falls back to the first
/// collected node when no requested node is in the tree.
pub proof fn fallback_focus_is_first_collected(
    current: &HashMap<u64, accesskit::Node>,
    root: accesskit::Node,
    collected: Seq<(u64, accesskit::Node)>,
    focus_node_id: Option<u64>,
)
    requires
        current@ == insert_all(Map::empty().insert(A11Y_ROOT_ID, root), collected),
        node_children(root) == ids_of(collected),
        !ids_of(collected).contains(A11Y_ROOT_ID),
        collected.len() > 0,
        focus_node_id is None || !current@.contains_key(focus_node_id->0),
    ensures
        chosen_focus(current, focus_node_id) == collected[0].0,
{
    let base = Map::empty().insert(A11Y_ROOT_ID, root);
    let ids = ids_of(collected);
    lemma_insert_all_at(base, collected, A11Y_ROOT_ID);
    lemma_insert_all_at(base, collected, ids[0]);
    assert(ids.contains(ids[0]));
    assert(root_children(current@) == ids);
    assert(ids[0] != A11Y_ROOT_ID);
    lemma_first_live_after(ids, current@, 0);
}

/// Law: the focus of an update is a node of the tree whenever the tree holds
/// its root, as every tree that `full_tree` builds does.
pub proof fn focus_is_a_tree_node(
    current: Map<u64, accesskit::Node>,
    focus_node_id: Option<u64>,
    focus: u64,
)
    requires
        current.contains_key(A11Y_ROOT_ID),
        is_valid_focus(current, focus_node_id, focus),
    ensures
        current.contains_key(focus),
{
}

/// Law: two frames whose collected nodes carry the same ids (none of them the
/// root id) have the same root, so a diff between their trees does not list
/// the root.
pub proof fn same_ids_leave_the_root_unlisted(
    current: Map<u64, accesskit::Node>,
    last: Map<u64, accesskit::Node>,
    ids: Seq<u64>,
)
    requires
        current.contains_key(A11Y_ROOT_ID),
        last.contains_key(A11Y_ROOT_ID),
        current[A11Y_ROOT_ID] == window_root(ids),
        last[A11Y_ROOT_ID] == window_root(ids),
        node_eq(window_root(ids), window_root(ids)),
    ensures
        !emitted_ids(current, last, false).contains(A11Y_ROOT_ID),
{
}

/// Law: in a tree built from collected nodes and a root whose children are
/// the collected ids (none of them the root id), every node is either the
/// root or one of the root's children.
pub proof fn tree_nodes_hang_under_root(
    root: accesskit::Node,
    collected: Seq<(u64, accesskit::Node)>,
)
    requires
        node_children(root) == ids_of(collected),
        !ids_of(collected).contains(A11Y_ROOT_ID),
    ensures
        ({
            let tree = insert_all(Map::empty().insert(A11Y_ROOT_ID, root), collected);
            &&& tree.contains_key(A11Y_ROOT_ID)
            &&& tree[A11Y_ROOT_ID] == root
            &&& forall|k: u64|
                #[trigger] tree.contains_key(k) ==> k == A11Y_ROOT_ID || node_children(
                    tree[A11Y_ROOT_ID],
                ).contains(k)
        }),
{
    let base = Map::empty().insert(A11Y_ROOT_ID, root);
    let tree = insert_all(base, collected);
    lemma_insert_all_at(base, collected, A11Y_ROOT_ID);
    assert forall|k: u64|
        #[trigger] tree.contains_key(k) implies k == A11Y_ROOT_ID || node_children(
            tree[A11Y_ROOT_ID],
        ).contains(k) by {
        lemma_insert_all_at(base, collected, k);
    }
}

/// Law: when a node collected in the last frame is not collected in the
/// current one, the two trees' roots differ in their children, so the
/// current root is listed in the update (see `diff_tree_update`) and the
/// dropped node leaves the tree through it.
pub proof fn removed_node_changes_root_children(
    last_root: accesskit::Node,
    last_collected: Seq<(u64, accesskit::Node)>,
    current_root: accesskit::Node,
    current_collected: Seq<(u64, accesskit::Node)>,
    removed: u64,
)
    requires
        node_children(last_root) == ids_of(last_collected),
        node_children(current_root) == ids_of(current_collected),
        !ids_of(last_collected).contains(A11Y_ROOT_ID),
        !ids_of(current_collected).contains(A11Y_ROOT_ID),
        ids_of(last_collected).contains(removed),
        !ids_of(current_collected).contains(removed),
    ensures
        ({
            let last = insert_all(Map::empty().insert(A11Y_ROOT_ID, last_root), last_collected);
            let current = insert_all(
                Map::empty().insert(A11Y_ROOT_ID, current_root),
                current_collected,
            );
            &&& last.contains_key(A11Y_ROOT_ID)
            &&& current.contains_key(A11Y_ROOT_ID)
            &&& node_children(last[A11Y_ROOT_ID]) != node_children(current[A11Y_ROOT_ID])
        }),
{
    lemma_insert_all_at(
        Map::empty().insert(A11Y_ROOT_ID, last_root),
        last_collected,
        A11Y_ROOT_ID,
    );
    lemma_insert_all_at(
        Map::empty().insert(A11Y_ROOT_ID, current_root),
        current_collected,
        A11Y_ROOT_ID,
    );
}

} // verus!
