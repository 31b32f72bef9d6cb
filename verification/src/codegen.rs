//! The code generation tree and the renderers that turn it into the Luau
//! module and its TypeScript declaration sidecar.
use vstd::prelude::*;
use crate::text::{
    chars_eq, chars_of, chars_of_string, debug_quoted, dec, idec, is_alnum, is_alpha, push_chars,
    push_debug, push_i64, push_str, push_u64, string_from_chars, char_is_alnum, char_is_alpha,
    to_owned_string, alpha_lt, chars_alpha_lt, lemma_alpha_lt_irreflexive, lemma_alpha_lt_transitive,
    lemma_alpha_lt_trichotomy,
};

verus! {

/// The section a rich leaf comes from; rendered as its `kind`.
#[derive(Clone, Copy, Debug, PartialEq, Eq, Structural)]
pub enum SectionKind {
    Pass,
    Product,
    Badge,
}

pub open spec fn ts_name_of(s: SectionKind) -> Seq<char> {
    match s {
        SectionKind::Pass => "Pass"@,
        SectionKind::Product => "Product"@,
        SectionKind::Badge => "Badge"@,
    }
}

impl SectionKind {
    pub fn ts_name(self) -> (r: &'static str)
        ensures
            r@ == ts_name_of(self),
    {
        match self {
            SectionKind::Pass => "Pass",
            SectionKind::Product => "Product",
            SectionKind::Badge => "Badge",
        }
    }
}

/// A leaf of the generated table.
#[derive(Debug)]
pub enum LeafKind {
    Rich { section: SectionKind, id: u64, price: i64, name: String, description: String },
    IdOnly(u64),
}

/// The value a leaf stands for.
pub enum LeafV {
    Rich { section: SectionKind, id: u64, price: i64, name: Seq<char>, description: Seq<char> },
    IdOnly(u64),
}

impl View for LeafKind {
    type V = LeafV;

    open spec fn view(&self) -> LeafV {
        match self {
            LeafKind::Rich { section, id, price, name, description } => LeafV::Rich {
                section: *section,
                id: *id,
                price: *price,
                name: name@,
                description: description@,
            },
            LeafKind::IdOnly(id) => LeafV::IdOnly(*id),
        }
    }
}

impl LeafKind {
    pub fn duplicate(&self) -> (r: LeafKind)
        ensures
            r@ == self@,
    {
        match self {
            LeafKind::Rich { section, id, price, name, description } => LeafKind::Rich {
                section: *section,
                id: *id,
                price: *price,
                name: name.clone(),
                description: description.clone(),
            },
            LeafKind::IdOnly(id) => LeafKind::IdOnly(*id),
        }
    }
}

/// A node of the generated table: a leaf, or a branch whose entries are
/// kept in the alphabetical order of their keys, ignoring case.
#[derive(Debug)]
pub enum CodegenNode {
    Leaf(LeafKind),
    Branch(Vec<(String, CodegenNode)>),
}

/// The value a node stands for.
pub enum NodeV {
    Leaf(LeafV),
    Branch(Seq<(Seq<char>, NodeV)>),
}

pub open spec fn node_v(n: CodegenNode) -> NodeV
    decreases n, 0nat,
{
    match n {
        CodegenNode::Leaf(l) => NodeV::Leaf(l@),
        CodegenNode::Branch(c) => NodeV::Branch(entries_v(c@)),
    }
}

pub open spec fn entries_v(es: Seq<(String, CodegenNode)>) -> Seq<(Seq<char>, NodeV)>
    decreases es, es.len(),
{
    if es.len() == 0 {
        Seq::empty()
    } else {
        entries_v(es.subrange(0, es.len() - 1)).push((es.last().0@, node_v(es.last().1)))
    }
}

pub proof fn lemma_entries_v(es: Seq<(String, CodegenNode)>)
    ensures
        entries_v(es).len() == es.len(),
        forall|i: int|
            0 <= i < es.len() ==> #[trigger] entries_v(es)[i] == (es[i].0@, node_v(es[i].1)),
    decreases es.len(),
{
    if es.len() > 0 {
        let p = es.subrange(0, es.len() - 1);
        lemma_entries_v(p);
        assert forall|i: int| 0 <= i < es.len() implies #[trigger] entries_v(es)[i] == (
        es[i].0@, node_v(es[i].1)) by {
            if i < es.len() - 1 {
                assert(p[i] == es[i]);
            }
        }
    }
}

// ---------------------------------------------------------------------------
// Ordered maps of entries
// ---------------------------------------------------------------------------
/// The node under `k`, found the way an insertion places `k`: the scan
/// stops at the first key that is `k` or greater than `k`.
pub open spec fn slot(es: Seq<(Seq<char>, NodeV)>, k: Seq<char>) -> Option<NodeV>
    decreases es.len(),
{
    if es.len() == 0 {
        None
    } else if es[0].0 == k {
        Some(es[0].1)
    } else if alpha_lt(k, es[0].0) {
        None
    } else {
        slot(es.drop_first(), k)
    }
}

/// `es` with `k` bound to `v`: the entry under `k` is replaced in place,
/// or a new entry is placed before the first greater key.
pub open spec fn put(es: Seq<(Seq<char>, NodeV)>, k: Seq<char>, v: NodeV) -> Seq<
    (Seq<char>, NodeV),
>
    decreases es.len(),
{
    if es.len() == 0 {
        seq![(k, v)]
    } else if es[0].0 == k {
        seq![(k, v)] + es.drop_first()
    } else if alpha_lt(k, es[0].0) {
        seq![(k, v)] + es
    } else {
        seq![es[0]] + put(es.drop_first(), k, v)
    }
}

/// The children of the branch under `k`; empty when `k` is absent or
/// holds a leaf (which the insertion then replaces by a branch).
pub open spec fn branch_children(es: Seq<(Seq<char>, NodeV)>, k: Seq<char>) -> Seq<
    (Seq<char>, NodeV),
> {
    match slot(es, k) {
        Some(NodeV::Branch(c)) => c,
        _ => Seq::empty(),
    }
}

/// `insert_into_tree`: the leaf lands under `key` at the end of the path
/// `segs`, creating the branches on the way; a leaf met on the way is
/// replaced by a branch, an entry already under `key` is replaced.
pub open spec fn tree_insert(
    es: Seq<(Seq<char>, NodeV)>,
    segs: Seq<Seq<char>>,
    key: Seq<char>,
    leaf: LeafV,
) -> Seq<(Seq<char>, NodeV)>
    decreases segs.len(),
{
    if segs.len() == 0 {
        put(es, key, NodeV::Leaf(leaf))
    } else {
        put(
            es,
            segs[0],
            NodeV::Branch(tree_insert(branch_children(es, segs[0]), segs.drop_first(), key, leaf)),
        )
    }
}

/// The node at the end of a path of keys.
pub open spec fn lookup(es: Seq<(Seq<char>, NodeV)>, path: Seq<Seq<char>>) -> Option<NodeV>
    decreases path.len(),
{
    if path.len() == 0 {
        None
    } else if path.len() == 1 {
        slot(es, path[0])
    } else {
        match slot(es, path[0]) {
            Some(NodeV::Branch(c)) => lookup(c, path.drop_first()),
            _ => None,
        }
    }
}

proof fn lemma_put_prefix(es: Seq<(Seq<char>, NodeV)>, k: Seq<char>, v: NodeV, i: int)
    requires
        0 <= i <= es.len(),
        forall|j: int| 0 <= j < i ==> es[j].0 != k && !alpha_lt(k, #[trigger] es[j].0),
    ensures
        put(es, k, v) == es.take(i) + put(es.skip(i), k, v),
        slot(es, k) == slot(es.skip(i), k),
    decreases i,
{
    if i == 0 {
        assert(es.skip(0) =~= es);
        assert(es.take(0) + put(es, k, v) =~= put(es, k, v));
    } else {
        let t = es.drop_first();
        assert forall|j: int| 0 <= j < i - 1 implies t[j].0 != k && !alpha_lt(k, #[trigger] t[j].0) by {
            assert(t[j] == es[j + 1]);
        }
        lemma_put_prefix(t, k, v, i - 1);
        assert(t.skip(i - 1) =~= es.skip(i));
        assert(es.take(i) =~= seq![es[0]] + t.take(i - 1));
        assert(es[0].0 != k && !alpha_lt(k, es[0].0));
        assert(put(es, k, v) == seq![es[0]] + put(t, k, v));
        assert(seq![es[0]] + (t.take(i - 1) + put(t.skip(i - 1), k, v)) =~= es.take(i) + put(
            es.skip(i),
            k,
            v,
        ));
    }
}

/// Position of `k` in `tree`: the index of the first key that is not less
/// than `k`, and whether that key is `k`.
fn locate(tree: &Vec<(String, CodegenNode)>, k: &Vec<char>) -> (r: (usize, bool))
    ensures
        r.0 <= tree@.len(),
        forall|j: int|
            0 <= j < r.0 ==> entries_v(tree@)[j].0 != k@ && !alpha_lt(
                k@,
                #[trigger] entries_v(tree@)[j].0,
            ),
        r.1 ==> r.0 < tree@.len() && entries_v(tree@)[r.0 as int].0 == k@,
        !r.1 && r.0 < tree@.len() ==> alpha_lt(k@, entries_v(tree@)[r.0 as int].0) && entries_v(
            tree@,
        )[r.0 as int].0 != k@,
{
    proof {
        lemma_entries_v(tree@);
    }
    let mut i: usize = 0;
    while i < tree.len()
        invariant
            0 <= i <= tree@.len(),
            entries_v(tree@).len() == tree@.len(),
            forall|j: int|
                0 <= j < tree@.len() ==> #[trigger] entries_v(tree@)[j] == (
                tree@[j].0@,
                node_v(tree@[j].1),
            ),
            forall|j: int|
                0 <= j < i ==> entries_v(tree@)[j].0 != k@ && !alpha_lt(
                    k@,
                    #[trigger] entries_v(tree@)[j].0,
                ),
        decreases tree@.len() - i,
    {
        let kc = chars_of_string(&tree[i].0);
        if chars_eq(&kc, k) {
            return (i, true);
        }
        if chars_alpha_lt(k, &kc) {
            return (i, false);
        }
        i += 1;
    }
    (i, false)
}

/// Binds `k` to `node` in `tree` (see `put`).
fn put_entry(tree: &mut Vec<(String, CodegenNode)>, k: String, node: CodegenNode)
    ensures
        entries_v(final(tree)@) == put(entries_v(old(tree)@), k@, node_v(node)),
{
    let kc = chars_of_string(&k);
    let (i, found) = locate(tree, &kc);
    let ghost es = entries_v(old(tree)@);
    proof {
        lemma_entries_v(old(tree)@);
        lemma_put_prefix(es, k@, node_v(node), i as int);
    }
    let ghost nv = node_v(node);
    if found {
        tree.remove(i);
        tree.insert(i, (k, node));
        proof {
            lemma_entries_v(tree@);
            let rest = es.skip(i as int);
            assert(rest[0].0 == kc@);
            assert(put(rest, kc@, nv) == seq![(kc@, nv)] + rest.drop_first());
            assert(entries_v(tree@) =~= es.take(i as int) + put(rest, kc@, nv));
        }
    } else {
        tree.insert(i, (k, node));
        proof {
            lemma_entries_v(tree@);
            let rest = es.skip(i as int);
            if i < es.len() {
                assert(rest[0].0 != kc@ && alpha_lt(kc@, rest[0].0));
                assert(put(rest, kc@, nv) == seq![(kc@, nv)] + rest);
            } else {
                assert(rest.len() == 0);
            }
            assert(entries_v(tree@) =~= es.take(i as int) + put(rest, kc@, nv));
        }
    }
}

fn insert_from(
    tree: &mut Vec<(String, CodegenNode)>,
    segs: &Vec<String>,
    from: usize,
    key: &String,
    leaf: LeafKind,
)
    requires
        from <= segs@.len(),
    ensures
        entries_v(final(tree)@) == tree_insert(
            entries_v(old(tree)@),
            segs@.skip(from as int).map_values(|s: String| s@),
            key@,
            leaf@,
        ),
    decreases segs@.len() - from,
{
    let ghost rest = segs@.skip(from as int).map_values(|s: String| s@);
    if from == segs.len() {
        assert(rest.len() == 0);
        put_entry(tree, key.clone(), CodegenNode::Leaf(leaf));
        return ;
    }
    let head = segs[from].clone();
    let hc = chars_of_string(&head);
    let ghost es = entries_v(old(tree)@);
    let (i, found) = locate(tree, &hc);
    proof {
        lemma_entries_v(old(tree)@);
    }
    let ghost b = NodeV::Branch(Seq::empty());
    proof {
        lemma_put_prefix(es, hc@, b, i as int);
    }
    let mut child: Vec<(String, CodegenNode)> = Vec::new();
    if found {
        let (_k, node) = tree.remove(i);
        match node {
            CodegenNode::Branch(c) => {
                child = c;
            },
            CodegenNode::Leaf(_) => {},
        }
        proof {
            assert(es.skip(i as int)[0] == es[i as int]);
            assert(slot(es, hc@) == Some(node_v(node)));
        }
    } else {
        proof {
            if i < es.len() {
                assert(es.skip(i as int)[0] == es[i as int]);
            }
            assert(slot(es, hc@) is None);
        }
    }
    let ghost old_child = entries_v(child@);
    assert(old_child == branch_children(es, hc@));
    insert_from(&mut child, segs, from + 1, key, leaf);
    proof {
        assert(rest[0] == hc@);
        assert(rest.drop_first() =~= segs@.skip(from + 1).map_values(|s: String| s@));
    }
    let ghost nb = node_v(CodegenNode::Branch(child));
    tree.insert(i, (head, CodegenNode::Branch(child)));
    proof {
        lemma_entries_v(tree@);
        lemma_put_prefix(es, hc@, nb, i as int);
        let r = es.skip(i as int);
        if found {
            assert(put(r, hc@, nb) == seq![(hc@, nb)] + r.drop_first());
            assert(entries_v(tree@) =~= es.take(i as int) + put(r, hc@, nb));
        } else {
            if i < es.len() {
                assert(r[0] == es[i as int]);
                assert(put(r, hc@, nb) == seq![(hc@, nb)] + r);
            }
            assert(entries_v(tree@) =~= es.take(i as int) + put(r, hc@, nb));
        }
    }
}


/// Inserts `leaf` under `key` at the end of the path `segments`
/// (see `tree_insert`).
pub fn insert_into_tree(
    tree: &mut Vec<(String, CodegenNode)>,
    segments: &Vec<String>,
    key: &String,
    leaf: LeafKind,
)
    ensures
        entries_v(final(tree)@) == tree_insert(
            entries_v(old(tree)@),
            segments@.map_values(|s: String| s@),
            key@,
            leaf@,
        ),
{
    insert_from(tree, segments, 0, key, leaf);
    assert(segments@.skip(0) =~= segments@);
}

// ---------------------------------------------------------------------------
// Laws of the tree
// ---------------------------------------------------------------------------
/// Keys in strictly increasing alphabetical order (ignoring case), the
/// order in which the renderers emit the entries of a table.
pub open spec fn keys_sorted(es: Seq<(Seq<char>, NodeV)>) -> bool {
    forall|i: int, j: int| 0 <= i < j < es.len() ==> alpha_lt(#[trigger] es[i].0, #[trigger] es[j].0)
}

/// After `k` is bound to `v`, `k` finds `v`.
pub proof fn lemma_put_then_slot(es: Seq<(Seq<char>, NodeV)>, k: Seq<char>, v: NodeV)
    ensures
        slot(put(es, k, v), k) == Some(v),
    decreases es.len(),
{
    if es.len() > 0 && es[0].0 != k && !alpha_lt(k, es[0].0) {
        lemma_put_then_slot(es.drop_first(), k, v);
        assert(put(es, k, v).drop_first() =~= put(es.drop_first(), k, v));
    }
}

/// Binding `k` leaves what every other key finds as it was.
pub proof fn lemma_put_keeps_others(es: Seq<(Seq<char>, NodeV)>, k: Seq<char>, v: NodeV, other: Seq<char>)
    requires
        other != k,
    ensures
        slot(put(es, k, v), other) == slot(es, other),
    decreases es.len(),
{
    let p = put(es, k, v);
    if es.len() == 0 {
        assert(p =~= seq![(k, v)]);
        assert(p[0].0 == k);
        assert(p.drop_first().len() == 0);
        assert(slot(p.drop_first(), other) is None);
        assert(slot(p, other) == slot(es, other));
    } else if es[0].0 == k {
        assert(p[0] == (k, v));
        assert(p.drop_first() =~= es.drop_first());
        assert(slot(p, other) == slot(es, other));
    } else if alpha_lt(k, es[0].0) {
        assert(p[0] == (k, v));
        assert(p.drop_first() =~= es);
        if alpha_lt(other, k) {
            lemma_alpha_lt_transitive(other, k, es[0].0);
            lemma_alpha_lt_irreflexive(other);
            assert(slot(es, other) is None);
        }
        assert(slot(p, other) == slot(es, other));
    } else {
        lemma_put_keeps_others(es.drop_first(), k, v, other);
        assert(p[0] == es[0]);
        assert(p.drop_first() =~= put(es.drop_first(), k, v));
        assert(slot(p, other) == slot(es, other));
    }
}

/// Binding a key keeps the keys in order; a bound below `k` and below
/// every key of `es` stays below every key of the result.
pub proof fn lemma_put_sorted(es: Seq<(Seq<char>, NodeV)>, k: Seq<char>, v: NodeV, below: Seq<char>)
    requires
        keys_sorted(es),
    ensures
        keys_sorted(put(es, k, v)),
        (forall|j: int| 0 <= j < es.len() ==> alpha_lt(below, #[trigger] es[j].0)) && alpha_lt(below, k)
            ==> forall|i: int| 0 <= i < put(es, k, v).len() ==> alpha_lt(below, #[trigger] put(es, k, v)[i].0),
    decreases es.len(),
{
    let p = put(es, k, v);
    if es.len() == 0 {
    } else if es[0].0 == k {
        assert forall|i: int| 0 <= i < p.len() implies p[i].0 == es[i].0 by {
            if i > 0 {
                assert(p[i] == es[i]);
            }
        }
    } else if alpha_lt(k, es[0].0) {
        assert forall|i: int, j: int| 0 <= i < j < p.len() implies alpha_lt(#[trigger] p[i].0, #[trigger] p[j].0) by {
            if i == 0 {
                assert(p[j] == es[j - 1]);
                if j > 1 {
                    assert(alpha_lt(es[0].0, es[j - 1].0));
                    lemma_alpha_lt_transitive(k, es[0].0, es[j - 1].0);
                }
            } else {
                assert(p[i] == es[i - 1]);
                assert(p[j] == es[j - 1]);
            }
        }
        assert forall|i: int| 0 <= i < p.len() implies p[i].0 == k || p[i].0 == es[i - 1].0 by {
            if i > 0 {
                assert(p[i] == es[i - 1]);
            }
        }
    } else {
        let rest = es.drop_first();
        let h = es[0].0;
        lemma_alpha_lt_trichotomy(h, k);
        assert(alpha_lt(h, k));
        assert forall|i: int, j: int| 0 <= i < j < rest.len() implies alpha_lt(#[trigger] rest[i].0, #[trigger] rest[j].0) by {
            assert(rest[i] == es[i + 1]);
            assert(rest[j] == es[j + 1]);
        }
        assert forall|j: int| 0 <= j < rest.len() implies alpha_lt(h, #[trigger] rest[j].0) by {
            assert(rest[j] == es[j + 1]);
        }
        lemma_put_sorted(rest, k, v, h);
        let q = put(rest, k, v);
        assert(p.drop_first() =~= q);
        assert(p[0] == es[0]);
        assert forall|i: int, j: int| 0 <= i < j < p.len() implies alpha_lt(#[trigger] p[i].0, #[trigger] p[j].0) by {
            assert(p[j] == q[j - 1]);
            if i > 0 {
                assert(p[i] == q[i - 1]);
            }
        }
        if (forall|j: int| 0 <= j < es.len() ==> alpha_lt(below, #[trigger] es[j].0)) && alpha_lt(below, k) {
            assert forall|i: int| 0 <= i < p.len() implies alpha_lt(below, #[trigger] p[i].0) by {
                assert(alpha_lt(below, es[0].0));
                if i > 0 {
                    assert(p[i] == q[i - 1]);
                    lemma_alpha_lt_transitive(below, h, q[i - 1].0);
                }
            }
        }
    }
}

/// A leaf inserted under `key` at the end of `segs` is what the path
/// `segs` followed by `key` leads to.
pub proof fn lemma_insert_then_lookup(
    es: Seq<(Seq<char>, NodeV)>,
    segs: Seq<Seq<char>>,
    key: Seq<char>,
    leaf: LeafV,
)
    ensures
        lookup(tree_insert(es, segs, key, leaf), segs.push(key)) == Some(NodeV::Leaf(leaf)),
    decreases segs.len(),
{
    if segs.len() == 0 {
        lemma_put_then_slot(es, key, NodeV::Leaf(leaf));
        assert(segs.push(key)[0] == key);
    } else {
        let below = branch_children(es, segs[0]);
        let child = tree_insert(below, segs.drop_first(), key, leaf);
        lemma_put_then_slot(es, segs[0], NodeV::Branch(child));
        lemma_insert_then_lookup(below, segs.drop_first(), key, leaf);
        assert(segs.push(key).drop_first() =~= segs.drop_first().push(key));
        assert(segs.push(key)[0] == segs[0]);
    }
}

/// An insertion keeps the top-level keys of the tree in order.
pub proof fn lemma_insert_keeps_order(
    es: Seq<(Seq<char>, NodeV)>,
    segs: Seq<Seq<char>>,
    key: Seq<char>,
    leaf: LeafV,
)
    requires
        keys_sorted(es),
    ensures
        keys_sorted(tree_insert(es, segs, key, leaf)),
{
    if segs.len() == 0 {
        lemma_put_sorted(es, key, NodeV::Leaf(leaf), key);
    } else {
        let child = tree_insert(branch_children(es, segs[0]), segs.drop_first(), key, leaf);
        lemma_put_sorted(es, segs[0], NodeV::Branch(child), key);
    }
}

/// Entries under another first key are left alone by an insertion.
pub proof fn lemma_insert_keeps_others(
    es: Seq<(Seq<char>, NodeV)>,
    segs: Seq<Seq<char>>,
    key: Seq<char>,
    leaf: LeafV,
    other: Seq<char>,
)
    requires
        other != segs.push(key)[0],
    ensures
        slot(tree_insert(es, segs, key, leaf), other) == slot(es, other),
{
    if segs.len() == 0 {
        lemma_put_keeps_others(es, key, NodeV::Leaf(leaf), other);
    } else {
        let child = tree_insert(branch_children(es, segs[0]), segs.drop_first(), key, leaf);
        lemma_put_keeps_others(es, segs[0], NodeV::Branch(child), other);
    }
}

// ---------------------------------------------------------------------------
// Keys
// ---------------------------------------------------------------------------
/// A bare Luau identifier: `[A-Za-z_][A-Za-z0-9_]*`.
pub open spec fn is_simple_ident(s: Seq<char>) -> bool {
    &&& s.len() > 0
    &&& (is_alpha(s[0]) || s[0] == '_')
    &&& forall|i: int| 1 <= i < s.len() ==> (is_alnum(#[trigger] s[i]) || s[i] == '_')
}

pub fn is_simple_lua_ident(s: &str) -> (r: bool)
    ensures
        r == is_simple_ident(s@),
{
    let c = chars_of(s);
    if c.len() == 0 {
        return false;
    }
    if !(char_is_alpha(c[0]) || c[0] == '_') {
        return false;
    }
    let mut i: usize = 1;
    while i < c.len()
        invariant
            1 <= i <= c@.len(),
            c@ == s@,
            forall|j: int| 1 <= j < i ==> (is_alnum(#[trigger] c@[j]) || c@[j] == '_'),
        decreases c@.len() - i,
    {
        if !(char_is_alnum(c[i]) || c[i] == '_') {
            return false;
        }
        i += 1;
    }
    true
}

/// How a key is written in a Luau table constructor.
pub open spec fn lua_key(k: Seq<char>) -> Seq<char> {
    if is_simple_ident(k) {
        k
    } else {
        "["@ + debug_quoted(k) + "]"@
    }
}

pub fn format_lua_key(key: &str) -> (r: String)
    ensures
        r@ == lua_key(key@),
{
    if is_simple_lua_ident(key) {
        key.to_owned()
    } else {
        let mut out: Vec<char> = Vec::new();
        push_str(&mut out, "[");
        push_debug(&mut out, key);
        push_str(&mut out, "]");
        string_from_chars(&out)
    }
}

fn push_lua_key(out: &mut Vec<char>, key: &str)
    ensures
        final(out)@ == old(out)@ + lua_key(key@),
{
    let k = format_lua_key(key);
    push_str(out, k.as_str());
}

/// How a key is written in a TypeScript object type.
pub open spec fn ts_key(k: Seq<char>) -> Seq<char> {
    if is_simple_ident(k) {
        k
    } else {
        debug_quoted(k)
    }
}

fn push_ts_key(out: &mut Vec<char>, key: &str)
    ensures
        final(out)@ == old(out)@ + ts_key(key@),
{
    if is_simple_lua_ident(key) {
        push_str(out, key);
    } else {
        push_debug(out, key);
    }
}

// ---------------------------------------------------------------------------
// Luau rendering
// ---------------------------------------------------------------------------
pub open spec fn tabs(n: nat) -> Seq<char> {
    Seq::new(n, |i: int| '\t')
}

/// The `, price = <price>` part of a rich leaf; badges carry no price.
pub open spec fn price_field(section: SectionKind, price: i64) -> Seq<char> {
    match section {
        SectionKind::Badge => Seq::empty(),
        _ => ", price = "@ + idec(price as int),
    }
}

/// The table constructor of one leaf.
pub open spec fn leaf_text(l: LeafV) -> Seq<char> {
    match l {
        LeafV::Rich { section, id, price, name, description } => "{ id = "@ + dec(id as nat)
            + price_field(section, price) + ", kind = "@ + debug_quoted(ts_name_of(section))
            + " :: Kind, name = "@ + debug_quoted(name) + ", description = "@ + debug_quoted(
            description,
        ) + " }"@,
        LeafV::IdOnly(id) => "{ id = "@ + dec(id as nat) + " }"@,
    }
}

pub fn render_leaf(out: &mut Vec<char>, leaf: &LeafKind)
    ensures
        final(out)@ == old(out)@ + leaf_text(leaf@),
{
    match leaf {
        LeafKind::Rich { section, id, price, name, description } => {
            let ghost o = out@;
            push_str(out, "{ id = ");
            push_u64(out, *id);
            match section {
                SectionKind::Badge => {},
                _ => {
                    push_str(out, ", price = ");
                    push_i64(out, *price);
                },
            }
            push_str(out, ", kind = ");
            push_debug(out, section.ts_name());
            push_str(out, " :: Kind, name = ");
            push_debug(out, name.as_str());
            push_str(out, ", description = ");
            push_debug(out, description.as_str());
            push_str(out, " }");
            assert(out@ =~= o + leaf_text(leaf@));
        },
        LeafKind::IdOnly(id) => {
            let ghost o = out@;
            push_str(out, "{ id = ");
            push_u64(out, *id);
            push_str(out, " }");
            assert(out@ =~= o + leaf_text(leaf@));
        },
    }
}

/// A node of the nested table, its closing brace indented by `depth` tabs.
pub open spec fn node_text(n: NodeV, depth: nat) -> Seq<char>
    decreases n, 0nat,
{
    match n {
        NodeV::Leaf(l) => leaf_text(l),
        NodeV::Branch(c) => "{\n"@ + branch_lines(c, depth, c.len()) + tabs(depth) + "}"@,
    }
}

/// The first `k` entries of a branch at `depth`.
pub open spec fn branch_lines(c: Seq<(Seq<char>, NodeV)>, depth: nat, k: nat) -> Seq<char>
    decreases c, k,
{
    if k == 0 || k > c.len() {
        Seq::empty()
    } else {
        branch_lines(c, depth, (k - 1) as nat) + tabs(depth) + "\t"@ + lua_key(c[k - 1].0)
            + " = "@ + node_text(c[k - 1].1, depth + 1) + (if k == c.len() {
            "\n"@
        } else {
            ",\n"@
        })
    }
}

fn render_node(out: &mut Vec<char>, node: &CodegenNode, indent: &Vec<char>, Ghost(depth): Ghost<nat>)
    requires
        indent@ == tabs(depth),
    ensures
        final(out)@ == old(out)@ + node_text(node_v(*node), depth),
    decreases node,
{
    match node {
        CodegenNode::Leaf(l) => {
            render_leaf(out, l);
        },
        CodegenNode::Branch(children) => {
            let ghost o = out@;
            let ghost cv = entries_v(children@);
            proof {
                lemma_entries_v(children@);
            }
            push_str(out, "{\n");
            let mut inner = indent.clone();
            inner.push('\t');
            assert(inner@ =~= tabs(depth + 1));
            let len = children.len();
            let mut i: usize = 0;
            while i < len
                invariant
                    0 <= i <= len,
                    len == children@.len(),
                    *node == CodegenNode::Branch(*children),
                    cv == entries_v(children@),
                    cv.len() == children@.len(),
                    forall|j: int|
                        0 <= j < children@.len() ==> #[trigger] cv[j] == (
                        children@[j].0@,
                        node_v(children@[j].1),
                    ),
                    indent@ == tabs(depth),
                    inner@ == tabs(depth + 1),
                    out@ == o + "{\n"@ + branch_lines(cv, depth, i as nat),
                decreases len - i,
            {
                proof {
                    assert(decreases_to!(*node => (*node)->Branch_0));
                    assert(decreases_to!(*children => children@));
                    assert(decreases_to!(children@ => children@[i as int]));
                    assert(decreases_to!(children@[i as int] => children@[i as int].1));
                }
                let ghost before = out@;
                push_chars(out, indent);
                push_str(out, "\t");
                push_lua_key(out, children[i].0.as_str());
                push_str(out, " = ");
                render_node(out, &children[i].1, &inner, Ghost(depth + 1));
                if i + 1 != len {
                    push_str(out, ",\n");
                } else {
                    push_str(out, "\n");
                }
                proof {
                    assert(cv[i as int].0 == children@[i as int].0@);
                    assert(out@ =~= o + "{\n"@ + branch_lines(cv, depth, (i + 1) as nat));
                }
                i += 1;
            }
            push_chars(out, indent);
            push_str(out, "}");
            assert(out@ =~= o + node_text(node_v(*node), depth));
        },
    }
}

/// The first `k` top-level entries of the nested table.
pub open spec fn nested_lines(es: Seq<(Seq<char>, NodeV)>, k: nat) -> Seq<char>
    decreases k,
{
    if k == 0 || k > es.len() {
        Seq::empty()
    } else {
        nested_lines(es, (k - 1) as nat) + "\t"@ + lua_key(es[k - 1].0) + " = "@ + node_text(
            es[k - 1].1,
            1,
        ) + (if k == es.len() {
            "\n"@
        } else {
            ",\n\n"@
        })
    }
}

/// The `return { ... }` statement of the nested style.
pub open spec fn nested_text(es: Seq<(Seq<char>, NodeV)>) -> Seq<char> {
    "return {\n"@ + nested_lines(es, es.len()) + "}"@
}

pub fn render_nested(out: &mut Vec<char>, tree: &Vec<(String, CodegenNode)>)
    ensures
        final(out)@ == old(out)@ + nested_text(entries_v(tree@)),
{
    let ghost o = out@;
    let ghost es = entries_v(tree@);
    proof {
        lemma_entries_v(tree@);
    }
    push_str(out, "return {\n");
    let mut one: Vec<char> = Vec::new();
    one.push('\t');
    assert(one@ =~= tabs(1));
    let len = tree.len();
    let mut i: usize = 0;
    while i < len
        invariant
            0 <= i <= len,
            len == tree@.len(),
            es == entries_v(tree@),
            es.len() == tree@.len(),
            forall|j: int|
                0 <= j < tree@.len() ==> #[trigger] es[j] == (tree@[j].0@, node_v(tree@[j].1)),
            one@ == tabs(1),
            out@ == o + "return {\n"@ + nested_lines(es, i as nat),
        decreases len - i,
    {
        push_str(out, "\t");
        push_lua_key(out, tree[i].0.as_str());
        push_str(out, " = ");
        render_node(out, &tree[i].1, &one, Ghost(1));
        if i + 1 != len {
            push_str(out, ",\n\n");
        } else {
            push_str(out, "\n");
        }
        assert(out@ =~= o + "return {\n"@ + nested_lines(es, (i + 1) as nat));
        i += 1;
    }
    push_str(out, "}");
    assert(out@ =~= o + nested_text(es));
}


// ---------------------------------------------------------------------------
// Flat style
// ---------------------------------------------------------------------------
/// `[String]::join(".")`.
pub open spec fn join_dot(segs: Seq<Seq<char>>) -> Seq<char>
    decreases segs.len(),
{
    if segs.len() == 0 {
        Seq::empty()
    } else if segs.len() == 1 {
        segs[0]
    } else {
        join_dot(segs.drop_last()) + "."@ + segs.last()
    }
}

/// The leaves of the first `k` entries, depth first, each with its dotted
/// path below `path`.
pub open spec fn flat_upto(es: Seq<(Seq<char>, NodeV)>, path: Seq<Seq<char>>, k: nat) -> Seq<
    (Seq<char>, LeafV),
>
    decreases es, k,
{
    if k == 0 || k > es.len() {
        Seq::empty()
    } else {
        flat_upto(es, path, (k - 1) as nat) + match es[k - 1].1 {
            NodeV::Leaf(l) => seq![(join_dot(path.push(es[k - 1].0)), l)],
            NodeV::Branch(c) => flat_upto(c, path.push(es[k - 1].0), c.len()),
        }
    }
}

/// Every leaf of the tree, depth first, with its dotted path.
pub open spec fn flat_leaves(es: Seq<(Seq<char>, NodeV)>) -> Seq<(Seq<char>, LeafV)> {
    flat_upto(es, Seq::empty(), es.len())
}

pub open spec fn strings_v(s: Seq<String>) -> Seq<Seq<char>> {
    s.map_values(|x: String| x@)
}

pub open spec fn pairs_v(s: Seq<(String, LeafKind)>) -> Seq<(Seq<char>, LeafV)> {
    s.map_values(|p: (String, LeafKind)| (p.0@, p.1@))
}

/// `path.join(".")`.
pub fn join_path(path: &Vec<String>) -> (r: String)
    ensures
        r@ == join_dot(strings_v(path@)),
{
    let mut out: Vec<char> = Vec::new();
    let mut i: usize = 0;
    while i < path.len()
        invariant
            0 <= i <= path@.len(),
            out@ == join_dot(strings_v(path@).take(i as int)),
        decreases path@.len() - i,
    {
        let ghost pre = strings_v(path@).take(i as int);
        if i > 0 {
            push_str(&mut out, ".");
        }
        push_str(&mut out, path[i].as_str());
        proof {
            let nxt = strings_v(path@).take(i + 1);
            assert(nxt.drop_last() =~= pre);
            if i == 0 {
                assert(out@ =~= nxt[0]);
            } else {
                assert(out@ =~= join_dot(nxt.drop_last()) + "."@ + nxt.last());
            }
        }
        i += 1;
    }
    assert(strings_v(path@).take(path@.len() as int) =~= strings_v(path@));
    string_from_chars(&out)
}

fn collect_upto(
    tree: &Vec<(String, CodegenNode)>,
    path: &mut Vec<String>,
    out: &mut Vec<(String, LeafKind)>,
)
    ensures
        final(path)@ == old(path)@,
        pairs_v(final(out)@) == pairs_v(old(out)@) + flat_upto(
            entries_v(tree@),
            strings_v(old(path)@),
            tree@.len() as nat,
        ),
    decreases tree@,
{
    let ghost es = entries_v(tree@);
    let ghost pv = strings_v(path@);
    let ghost o = pairs_v(out@);
    proof {
        lemma_entries_v(tree@);
    }
    let mut i: usize = 0;
    while i < tree.len()
        invariant
            0 <= i <= tree@.len(),
            es == entries_v(tree@),
            es.len() == tree@.len(),
            forall|j: int|
                0 <= j < tree@.len() ==> #[trigger] es[j] == (tree@[j].0@, node_v(tree@[j].1)),
            path@ == old(path)@,
            pv == strings_v(path@),
            pairs_v(out@) == o + flat_upto(es, pv, i as nat),
        decreases tree@.len() - i,
    {
        path.push(tree[i].0.clone());
        proof {
            assert(strings_v(path@) =~= pv.push(es[i as int].0));
        }
        match &tree[i].1 {
            CodegenNode::Leaf(kind) => {
                let p = join_path(path);
                let ghost before = out@;
                out.push((p, kind.duplicate()));
                proof {
                    assert(pairs_v(out@) =~= pairs_v(before).push((p@, kind@)));
                    assert(es[i as int].1 == NodeV::Leaf(kind@));
                }
            },
            CodegenNode::Branch(children) => {
                proof {
                    assert(decreases_to!(tree@ => tree@[i as int]));
                    assert(decreases_to!(tree@[i as int] => tree@[i as int].1));
                    assert(decreases_to!(tree@[i as int].1 => (tree@[i as int].1)->Branch_0));
                    assert(decreases_to!(*children => children@));
                    lemma_entries_v(children@);
                }
                collect_upto(children, path, out);
                proof {
                    assert(es[i as int].1 == NodeV::Branch(entries_v(children@)));
                }
            },
        }
        path.pop();
        proof {
            assert(path@ =~= old(path)@);
            assert(pairs_v(out@) =~= o + flat_upto(es, pv, (i + 1) as nat));
        }
        i += 1;
    }
}

/// Every leaf of the tree with its dotted path, depth first.
pub fn collect_flat_leaves(tree: &Vec<(String, CodegenNode)>) -> (r: Vec<(String, LeafKind)>)
    ensures
        pairs_v(r@) == flat_leaves(entries_v(tree@)),
{
    let mut path: Vec<String> = Vec::new();
    let mut out: Vec<(String, LeafKind)> = Vec::new();
    assert(strings_v(path@) =~= Seq::<Seq<char>>::empty());
    assert(pairs_v(out@) =~= Seq::<(Seq<char>, LeafV)>::empty());
    collect_upto(&tree, &mut path, &mut out);
    proof {
        lemma_entries_v(tree@);
        assert(pairs_v(out@) =~= flat_leaves(entries_v(tree@)));
    }
    out
}

/// Inserts `x` into `t`, after every entry whose path is not greater.
pub open spec fn insert_by_path(t: Seq<(Seq<char>, LeafV)>, x: (Seq<char>, LeafV)) -> Seq<
    (Seq<char>, LeafV),
>
    decreases t.len(),
{
    if t.len() == 0 {
        seq![x]
    } else if alpha_lt(x.0, t.last().0) {
        insert_by_path(t.drop_last(), x).push(t.last())
    } else {
        t.push(x)
    }
}

/// The leaves in the alphabetical order of their paths, ignoring case,
/// leaves with equal paths in their original order (a stable sort).
pub open spec fn sort_by_path(s: Seq<(Seq<char>, LeafV)>) -> Seq<(Seq<char>, LeafV)>
    decreases s.len(),
{
    if s.len() == 0 {
        s
    } else {
        insert_by_path(sort_by_path(s.drop_last()), s.last())
    }
}

/// Paths in non-decreasing order.
pub open spec fn paths_sorted(t: Seq<(Seq<char>, LeafV)>) -> bool {
    forall|i: int, j: int| 0 <= i < j < t.len() ==> !alpha_lt(#[trigger] t[j].0, #[trigger] t[i].0)
}

/// Inserting into a sorted sequence keeps it sorted and adds exactly the
/// inserted leaf; a path no smaller than every path stays no smaller.
proof fn lemma_insert_by_path(t: Seq<(Seq<char>, LeafV)>, x: (Seq<char>, LeafV), top: Seq<char>)
    requires
        paths_sorted(t),
    ensures
        paths_sorted(insert_by_path(t, x)),
        insert_by_path(t, x).to_multiset() =~= t.to_multiset().insert(x),
        (forall|j: int| 0 <= j < t.len() ==> !alpha_lt(top, #[trigger] t[j].0)) && !alpha_lt(top, x.0)
            ==> forall|i: int| 0 <= i < insert_by_path(t, x).len() ==> !alpha_lt(top, #[trigger] insert_by_path(t, x)[i].0),
    decreases t.len(),
{
    broadcast use vstd::seq_lib::group_to_multiset_ensures;
    let r = insert_by_path(t, x);
    if t.len() == 0 {
        assert(r =~= Seq::<(Seq<char>, LeafV)>::empty().push(x));
    } else if alpha_lt(x.0, t.last().0) {
        let rest = t.drop_last();
        let last = t.last();
        assert forall|i: int, j: int| 0 <= i < j < rest.len() implies !alpha_lt(#[trigger] rest[j].0, #[trigger] rest[i].0) by {
            assert(rest[i] == t[i] && rest[j] == t[j]);
        }
        assert forall|j: int| 0 <= j < rest.len() implies !alpha_lt(last.0, #[trigger] rest[j].0) by {
            assert(rest[j] == t[j]);
            assert(last == t[t.len() - 1]);
        }
        lemma_alpha_lt_trichotomy(x.0, last.0);
        lemma_insert_by_path(rest, x, last.0);
        lemma_insert_by_path(rest, x, top);
        let ins = insert_by_path(rest, x);
        assert(r == ins.push(last));
        assert forall|i: int, j: int| 0 <= i < j < r.len() implies !alpha_lt(#[trigger] r[j].0, #[trigger] r[i].0) by {
            if j < ins.len() {
                assert(r[i] == ins[i] && r[j] == ins[j]);
            } else {
                assert(r[i] == ins[i]);
                assert(r[j] == last);
            }
        }
        assert(t.to_multiset() =~= rest.push(last).to_multiset()) by {
            assert(rest.push(last) =~= t);
        }
        if (forall|j: int| 0 <= j < t.len() ==> !alpha_lt(top, #[trigger] t[j].0)) && !alpha_lt(top, x.0) {
            assert forall|j: int| 0 <= j < rest.len() implies !alpha_lt(top, #[trigger] rest[j].0) by {
                assert(rest[j] == t[j]);
            }
            assert(!alpha_lt(top, last.0)) by {
                assert(last == t[t.len() - 1]);
            }
            assert forall|i: int| 0 <= i < r.len() implies !alpha_lt(top, #[trigger] r[i].0) by {
                if i < ins.len() {
                    assert(r[i] == ins[i]);
                }
            }
        }
    } else {
        let last = t.last();
        assert(r == t.push(x));
        assert forall|i: int, j: int| 0 <= i < j < r.len() implies !alpha_lt(#[trigger] r[j].0, #[trigger] r[i].0) by {
            if j < t.len() {
                assert(r[i] == t[i] && r[j] == t[j]);
            } else {
                assert(r[i] == t[i]);
                assert(r[j] == x);
                if i < t.len() - 1 {
                    assert(!alpha_lt(t[t.len() - 1].0, t[i].0));
                }
                assert(last == t[t.len() - 1]);
                lemma_alpha_lt_trichotomy(last.0, t[i].0);
                if alpha_lt(x.0, t[i].0) {
                    if alpha_lt(t[i].0, last.0) {
                        lemma_alpha_lt_transitive(x.0, t[i].0, last.0);
                    }
                }
            }
        }
        if (forall|j: int| 0 <= j < t.len() ==> !alpha_lt(top, #[trigger] t[j].0)) && !alpha_lt(top, x.0) {
            assert forall|i: int| 0 <= i < r.len() implies !alpha_lt(top, #[trigger] r[i].0) by {
                if i < t.len() {
                    assert(r[i] == t[i]);
                }
            }
        }
    }
}

/// The flat table's order: the leaves sorted alphabetically by path,
/// ignoring case (the lines come out in that order), each leaf kept
/// exactly once.
pub proof fn lemma_sort_by_path(s: Seq<(Seq<char>, LeafV)>)
    ensures
        paths_sorted(sort_by_path(s)),
        sort_by_path(s).to_multiset() =~= s.to_multiset(),
    decreases s.len(),
{
    broadcast use vstd::seq_lib::group_to_multiset_ensures;
    if s.len() > 0 {
        let rest = s.drop_last();
        lemma_sort_by_path(rest);
        lemma_insert_by_path(sort_by_path(rest), s.last(), s.last().0);
        assert(rest.push(s.last()) =~= s);
    }
}

fn insert_sorted(t: &mut Vec<(String, LeafKind)>, x: (String, LeafKind))
    ensures
        pairs_v(final(t)@) == insert_by_path(pairs_v(old(t)@), (x.0@, x.1@)),
    decreases old(t)@.len(),
{
    let ghost tv = pairs_v(t@);
    if t.len() > 0 {
        let xk = chars_of_string(&x.0);
        let lk = chars_of_string(&t[t.len() - 1].0);
        if chars_alpha_lt(&xk, &lk) {
            let y = t.pop().unwrap();
            proof {
                assert(pairs_v(t@) =~= tv.drop_last());
            }
            insert_sorted(t, x);
            let ghost mid = pairs_v(t@);
            t.push(y);
            proof {
                assert(pairs_v(t@) =~= mid.push((y.0@, y.1@)));
            }
            return ;
        }
    }
    let ghost before = t@;
    t.push(x);
    assert(pairs_v(t@) =~= tv.push((x.0@, x.1@)));
}

/// Sorts leaves by path, stably.
pub fn sort_leaves(v: Vec<(String, LeafKind)>) -> (r: Vec<(String, LeafKind)>)
    ensures
        pairs_v(r@) == sort_by_path(pairs_v(v@)),
{
    let mut r: Vec<(String, LeafKind)> = Vec::new();
    let mut src = v;
    let ghost sv = pairs_v(src@);
    let mut rest: Vec<(String, LeafKind)> = Vec::new();
    // take the items in order: reverse the vector, then pop
    while src.len() > 0
        invariant
            pairs_v(src@) + pairs_v(rest@).reverse() == sv,
        decreases src@.len(),
    {
        let x = src.pop().unwrap();
        let ghost before = rest@;
        rest.push(x);
        proof {
            assert(pairs_v(rest@) =~= pairs_v(before).push((x.0@, x.1@)));
            assert(pairs_v(rest@).reverse() =~= seq![(x.0@, x.1@)] + pairs_v(before).reverse());
        }
        assert(pairs_v(src@) + pairs_v(rest@).reverse() =~= sv);
    }
    assert(pairs_v(src@) =~= Seq::<(Seq<char>, LeafV)>::empty());
    assert(pairs_v(r@) =~= sort_by_path(sv.take(0)));
    while rest.len() > 0
        invariant
            pairs_v(rest@).len() <= sv.len(),
            pairs_v(rest@).reverse() == sv.skip(sv.len() - pairs_v(rest@).len()),
            pairs_v(r@) == sort_by_path(sv.take(sv.len() - pairs_v(rest@).len())),
        decreases rest@.len(),
    {
        let ghost k = sv.len() - pairs_v(rest@).len();
        let ghost rv = pairs_v(rest@);
        let x = rest.pop().unwrap();
        proof {
            assert(pairs_v(rest@) =~= rv.drop_last());
            assert(rv.reverse()[0] == rv.last());
            assert(sv[k] == rv.last());
            assert(rv.drop_last().reverse() =~= rv.reverse().drop_first());
            assert(sv.skip(k).drop_first() =~= sv.skip(k + 1));
            assert(pairs_v(rest@).reverse() =~= sv.skip(k + 1));
            assert(sv.take(k + 1).drop_last() =~= sv.take(k));
        }
        insert_sorted(&mut r, x);
    }
    assert(sv.take(sv.len() as int) =~= sv);
    r
}

/// The first `k` lines of the flat table.
pub open spec fn flat_lines(ls: Seq<(Seq<char>, LeafV)>, k: nat) -> Seq<char>
    decreases k,
{
    if k == 0 || k > ls.len() {
        Seq::empty()
    } else {
        flat_lines(ls, (k - 1) as nat) + "\t["@ + debug_quoted(ls[k - 1].0) + "] = "@ + leaf_text(
            ls[k - 1].1,
        ) + (if k == ls.len() {
            "\n"@
        } else {
            ",\n"@
        })
    }
}

/// The `return { ... }` statement of the flat style: one line per leaf,
/// keyed by its dotted path, in the order of the paths.
pub open spec fn flat_text(es: Seq<(Seq<char>, NodeV)>) -> Seq<char> {
    let ls = sort_by_path(flat_leaves(es));
    "return {\n"@ + flat_lines(ls, ls.len()) + "}"@
}

pub fn render_flat(out: &mut Vec<char>, tree: &Vec<(String, CodegenNode)>)
    ensures
        final(out)@ == old(out)@ + flat_text(entries_v(tree@)),
{
    let leaves = sort_leaves(collect_flat_leaves(tree));
    let ghost ls = pairs_v(leaves@);
    let ghost o = out@;
    push_str(out, "return {\n");
    let len = leaves.len();
    let mut i: usize = 0;
    while i < len
        invariant
            0 <= i <= len,
            len == leaves@.len(),
            ls == pairs_v(leaves@),
            out@ == o + "return {\n"@ + flat_lines(ls, i as nat),
        decreases len - i,
    {
        push_str(out, "\t[");
        push_debug(out, leaves[i].0.as_str());
        push_str(out, "] = ");
        render_leaf(out, &leaves[i].1);
        if i + 1 != len {
            push_str(out, ",\n");
        } else {
            push_str(out, "\n");
        }
        assert(ls[i as int] == (leaves@[i as int].0@, leaves@[i as int].1@));
        assert(out@ =~= o + "return {\n"@ + flat_lines(ls, (i + 1) as nat));
        i += 1;
    }
    push_str(out, "}");
    assert(out@ =~= o + flat_text(entries_v(tree@)));
}

// ---------------------------------------------------------------------------
// TypeScript declarations
// ---------------------------------------------------------------------------
pub open spec fn leaf_ts(l: LeafV) -> Seq<char> {
    match l {
        LeafV::IdOnly(_) => "{ id: number }"@,
        LeafV::Rich { section, .. } => ts_name_of(section),
    }
}

pub fn leaf_ts_type(leaf: &LeafKind) -> (r: &'static str)
    ensures
        r@ == leaf_ts(leaf@),
{
    match leaf {
        LeafKind::IdOnly(_) => "{ id: number }",
        LeafKind::Rich { section, .. } => section.ts_name(),
    }
}

pub open spec fn flat_dts_lines(ls: Seq<(Seq<char>, LeafV)>, k: nat) -> Seq<char>
    decreases k,
{
    if k == 0 || k > ls.len() {
        Seq::empty()
    } else {
        flat_dts_lines(ls, (k - 1) as nat) + "\t"@ + debug_quoted(ls[k - 1].0) + ": "@ + leaf_ts(
            ls[k - 1].1,
        ) + ";\n"@
    }
}

/// The declaration of the flat style: one property per leaf path.
pub open spec fn flat_dts_text(es: Seq<(Seq<char>, NodeV)>, var: Seq<char>) -> Seq<char> {
    let ls = sort_by_path(flat_leaves(es));
    "declare const "@ + var + ": {\n"@ + flat_dts_lines(ls, ls.len()) + "};\n"@
        + "export default "@ + var + ";\n"@
}

pub fn render_flat_dts(out: &mut Vec<char>, tree: &Vec<(String, CodegenNode)>, var_name: &str)
    ensures
        final(out)@ == old(out)@ + flat_dts_text(entries_v(tree@), var_name@),
{
    let leaves = sort_leaves(collect_flat_leaves(tree));
    let ghost ls = pairs_v(leaves@);
    let ghost o = out@;
    push_str(out, "declare const ");
    push_str(out, var_name);
    push_str(out, ": {\n");
    let ghost head = out@;
    let len = leaves.len();
    let mut i: usize = 0;
    while i < len
        invariant
            0 <= i <= len,
            len == leaves@.len(),
            ls == pairs_v(leaves@),
            out@ == head + flat_dts_lines(ls, i as nat),
        decreases len - i,
    {
        push_str(out, "\t");
        push_debug(out, leaves[i].0.as_str());
        push_str(out, ": ");
        push_str(out, leaf_ts_type(&leaves[i].1));
        push_str(out, ";\n");
        assert(ls[i as int] == (leaves@[i as int].0@, leaves@[i as int].1@));
        assert(out@ =~= head + flat_dts_lines(ls, (i + 1) as nat));
        i += 1;
    }
    push_str(out, "};\n");
    push_str(out, "export default ");
    push_str(out, var_name);
    push_str(out, ";\n");
    assert(out@ =~= o + flat_dts_text(entries_v(tree@), var_name@));
}

/// The object type of a branch, closing brace indented by `depth` tabs.
pub open spec fn ts_branch_text(es: Seq<(Seq<char>, NodeV)>, depth: nat) -> Seq<char>
    decreases es, es.len() + 1,
{
    "{\n"@ + ts_lines(es, depth, es.len()) + tabs(depth) + "}"@
}

pub open spec fn ts_lines(es: Seq<(Seq<char>, NodeV)>, depth: nat, k: nat) -> Seq<char>
    decreases es, k,
{
    if k == 0 || k > es.len() {
        Seq::empty()
    } else {
        ts_lines(es, depth, (k - 1) as nat) + tabs(depth + 1) + ts_key(es[k - 1].0) + ": "@
            + match es[k - 1].1 {
            NodeV::Leaf(l) => leaf_ts(l),
            NodeV::Branch(c) => ts_branch_text(c, depth + 1),
        } + ";\n"@
    }
}

/// The key as the declaration writes it: bare when it is a simple
/// identifier, else quoted.
pub open spec fn ts_key_text(k: Seq<char>) -> Seq<char> {
    if is_simple_ident(k) {
        k
    } else {
        debug_quoted(k)
    }
}

proof fn lemma_ts_lines_prefix(es: Seq<(Seq<char>, NodeV)>, depth: nat, j: nat, k: nat)
    requires
        j <= k <= es.len(),
    ensures
        ts_lines(es, depth, j).len() <= ts_lines(es, depth, k).len(),
        ts_lines(es, depth, k).subrange(0, ts_lines(es, depth, j).len() as int) == ts_lines(es, depth, j),
    decreases k,
{
    if j < k {
        lemma_ts_lines_prefix(es, depth, j, (k - 1) as nat);
        let a = ts_lines(es, depth, (k - 1) as nat);
        let t = ts_lines(es, depth, k);
        assert(t.subrange(0, a.len() as int) =~= a);
        assert(t.subrange(0, ts_lines(es, depth, j).len() as int) =~= a.subrange(
            0,
            ts_lines(es, depth, j).len() as int,
        ));
    } else {
        assert(ts_lines(es, depth, k).subrange(0, ts_lines(es, depth, k).len() as int) =~= ts_lines(
            es,
            depth,
            k,
        ));
    }
}

proof fn lemma_ts_lines_end_line(es: Seq<(Seq<char>, NodeV)>, depth: nat, k: nat)
    requires
        0 < k <= es.len(),
    ensures
        ts_lines(es, depth, k).len() > 0,
        ts_lines(es, depth, k).last() == '\n',
{
    let head = ts_lines(es, depth, (k - 1) as nat) + tabs(depth + 1) + ts_key(es[k - 1].0) + ": "@
        + match es[k - 1].1 {
        NodeV::Leaf(l) => leaf_ts(l),
        NodeV::Branch(c) => ts_branch_text(c, depth + 1),
    };
    assert(ts_lines(es, depth, k) == head + ";\n"@);
    reveal_strlit(";\n");
    assert((head + ";\n"@).last() == ";\n"@.last());
}

/// In the declaration, every key of a table at every depth starts its own
/// line, after the table's indentation: bare exactly when it is a simple
/// identifier, quoted otherwise, then `: `. The text splits as `before`
/// (ending a line), the indented key, and `after`.
pub proof fn lemma_ts_key_at_any_depth(es: Seq<(Seq<char>, NodeV)>, depth: nat, i: int) -> (r: (
    Seq<char>,
    Seq<char>,
))
    requires
        0 <= i < es.len(),
    ensures
        ts_branch_text(es, depth) == r.0 + tabs(depth + 1) + ts_key_text(es[i].0) + ": "@ + r.1,
        r.0.len() > 0 && r.0.last() == '\n',
{
    let n = es.len();
    lemma_ts_lines_prefix(es, depth, (i + 1) as nat, n);
    let before = ts_lines(es, depth, i as nat);
    let upto = ts_lines(es, depth, (i + 1) as nat);
    let all = ts_lines(es, depth, n);
    let line_rest = match es[i].1 {
        NodeV::Leaf(l) => leaf_ts(l),
        NodeV::Branch(c) => ts_branch_text(c, depth + 1),
    } + ";\n"@;
    let mid = tabs(depth + 1) + ts_key_text(es[i].0) + ": "@;
    assert(upto =~= before + mid + line_rest);
    let tail = all.subrange(upto.len() as int, all.len() as int);
    assert(all =~= upto + tail);
    let pre = "{\n"@ + before;
    let post = line_rest + tail + tabs(depth) + "}"@;
    assert(ts_branch_text(es, depth) =~= pre + mid + post);
    reveal_strlit("{\n");
    if i > 0 {
        lemma_ts_lines_end_line(es, depth, i as nat);
        assert(pre.last() == before.last());
    } else {
        assert(pre =~= "{\n"@);
    }
    (pre, post)
}

fn render_ts_branch(
    out: &mut Vec<char>,
    tree: &Vec<(String, CodegenNode)>,
    indent: &Vec<char>,
    Ghost(depth): Ghost<nat>,
)
    requires
        indent@ == tabs(depth),
    ensures
        final(out)@ == old(out)@ + ts_branch_text(entries_v(tree@), depth),
    decreases tree@,
{
    let ghost es = entries_v(tree@);
    let ghost o = out@;
    proof {
        lemma_entries_v(tree@);
    }
    push_str(out, "{\n");
    let mut inner = indent.clone();
    inner.push('\t');
    assert(inner@ =~= tabs(depth + 1));
    let len = tree.len();
    let mut i: usize = 0;
    while i < len
        invariant
            0 <= i <= len,
            len == tree@.len(),
            es == entries_v(tree@),
            es.len() == tree@.len(),
            forall|j: int|
                0 <= j < tree@.len() ==> #[trigger] es[j] == (tree@[j].0@, node_v(tree@[j].1)),
            indent@ == tabs(depth),
            inner@ == tabs(depth + 1),
            out@ == o + "{\n"@ + ts_lines(es, depth, i as nat),
        decreases len - i,
    {
        let ghost before = out@;
        push_chars(out, &inner);
        push_ts_key(out, tree[i].0.as_str());
        push_str(out, ": ");
        match &tree[i].1 {
            CodegenNode::Leaf(kind) => {
                push_str(out, leaf_ts_type(kind));
            },
            CodegenNode::Branch(children) => {
                proof {
                    assert(decreases_to!(tree@ => tree@[i as int]));
                    assert(decreases_to!(tree@[i as int] => tree@[i as int].1));
                    assert(decreases_to!(tree@[i as int].1 => (tree@[i as int].1)->Branch_0));
                    assert(decreases_to!(*children => children@));
                }
                render_ts_branch(out, children, &inner, Ghost(depth + 1));
            },
        }
        push_str(out, ";\n");
        assert(out@ =~= o + "{\n"@ + ts_lines(es, depth, (i + 1) as nat));
        i += 1;
    }
    push_chars(out, indent);
    push_str(out, "}");
    assert(out@ =~= o + ts_branch_text(es, depth));
}

/// The declaration of the nested style: one object type mirroring the table.
pub open spec fn nested_dts_text(es: Seq<(Seq<char>, NodeV)>, var: Seq<char>) -> Seq<char> {
    "declare const "@ + var + ": "@ + ts_branch_text(es, 0) + ";\n"@ + "export default "@ + var
        + ";\n"@
}

pub fn render_nested_dts(out: &mut Vec<char>, tree: &Vec<(String, CodegenNode)>, var_name: &str)
    ensures
        final(out)@ == old(out)@ + nested_dts_text(entries_v(tree@), var_name@),
{
    let ghost o = out@;
    push_str(out, "declare const ");
    push_str(out, var_name);
    push_str(out, ": ");
    let none: Vec<char> = Vec::new();
    assert(none@ =~= tabs(0));
    render_ts_branch(out, tree, &none, Ghost(0));
    push_str(out, ";\n");
    push_str(out, "export default ");
    push_str(out, var_name);
    push_str(out, ";\n");
    assert(out@ =~= o + nested_dts_text(entries_v(tree@), var_name@));
}


// ---------------------------------------------------------------------------
// Paths
// ---------------------------------------------------------------------------
/// The dot-separated segments of `s` still to come, `cur` being the
/// segment read so far; empty segments are dropped.
pub open spec fn segments_from(s: Seq<char>, cur: Seq<char>) -> Seq<Seq<char>>
    decreases s.len(),
{
    if s.len() == 0 {
        if cur.len() > 0 {
            seq![cur]
        } else {
            Seq::empty()
        }
    } else if s[0] == '.' {
        (if cur.len() > 0 {
            seq![cur]
        } else {
            Seq::empty()
        }) + segments_from(s.drop_first(), Seq::empty())
    } else {
        segments_from(s.drop_first(), cur.push(s[0]))
    }
}

/// `path.split('.').filter(|s| !s.is_empty())`.
pub open spec fn split_dots(s: Seq<char>) -> Seq<Seq<char>> {
    segments_from(s, Seq::empty())
}

pub fn split_path(path: &str) -> (r: Vec<String>)
    ensures
        strings_v(r@) == split_dots(path@),
{
    let c = chars_of(path);
    let mut out: Vec<String> = Vec::new();
    let mut cur: Vec<char> = Vec::new();
    let mut i: usize = 0;
    assert(c@.skip(0) =~= c@);
    while i < c.len()
        invariant
            0 <= i <= c@.len(),
            c@ == path@,
            strings_v(out@) + segments_from(c@.skip(i as int), cur@) == split_dots(path@),
        decreases c@.len() - i,
    {
        let ghost rest = c@.skip(i as int);
        assert(rest.drop_first() =~= c@.skip(i + 1));
        if c[i] == '.' {
            if cur.len() > 0 {
                let ghost before = out@;
                out.push(string_from_chars(&cur));
                assert(strings_v(out@) =~= strings_v(before) + seq![cur@]);
            }
            cur = Vec::new();
            assert(strings_v(out@) + segments_from(c@.skip(i + 1), cur@) =~= split_dots(path@));
        } else {
            cur.push(c[i]);
        }
        i += 1;
    }
    if cur.len() > 0 {
        let ghost before = out@;
        out.push(string_from_chars(&cur));
        assert(strings_v(out@) =~= strings_v(before) + seq![cur@]);
    }
    assert(strings_v(out@) =~= split_dots(path@));
    out
}

pub open spec fn ends_with(s: Seq<char>, suffix: Seq<char>) -> bool {
    suffix.len() <= s.len() && s.skip(s.len() - suffix.len()) == suffix
}

/// The `.d.ts` path beside a `.luau` (or `.lua`) output path.
pub open spec fn dts_path_of(p: Seq<char>) -> Seq<char> {
    if ends_with(p, ".luau"@) {
        p.take(p.len() - ".luau"@.len()) + ".d.ts"@
    } else if ends_with(p, ".lua"@) {
        p.take(p.len() - ".lua"@.len()) + ".d.ts"@
    } else {
        p + ".d.ts"@
    }
}

pub fn chars_end_with(s: &Vec<char>, suffix: &Vec<char>) -> (r: bool)
    ensures
        r == ends_with(s@, suffix@),
{
    if suffix.len() > s.len() {
        return false;
    }
    let off = s.len() - suffix.len();
    let mut i: usize = 0;
    while i < suffix.len()
        invariant
            0 <= i <= suffix@.len(),
            off == s@.len() - suffix@.len(),
            suffix@.len() <= s@.len(),
            s@.len() <= usize::MAX,
            forall|j: int| 0 <= j < i ==> s@[off + j] == #[trigger] suffix@[j],
        decreases suffix@.len() - i,
    {
        if s[off + i] != suffix[i] {
            assert(s@.skip(off as int)[i as int] != suffix@[i as int]);
            return false;
        }
        i += 1;
    }
    assert(s@.skip(off as int) =~= suffix@);
    true
}

fn take_chars(s: &Vec<char>, n: usize) -> (r: Vec<char>)
    requires
        n <= s@.len(),
    ensures
        r@ == s@.take(n as int),
{
    let mut r: Vec<char> = Vec::new();
    let mut i: usize = 0;
    while i < n
        invariant
            0 <= i <= n,
            n <= s@.len(),
            r@ == s@.take(i as int),
        decreases n - i,
    {
        r.push(s[i]);
        i += 1;
        assert(r@ =~= s@.take(i as int));
    }
    r
}

pub fn derive_dts_path(luau_path: &str) -> (r: String)
    ensures
        r@ == dts_path_of(luau_path@),
{
    let p = chars_of(luau_path);
    let luau = chars_of(".luau");
    let lua = chars_of(".lua");
    let mut out: Vec<char>;
    if chars_end_with(&p, &luau) {
        out = take_chars(&p, p.len() - luau.len());
    } else if chars_end_with(&p, &lua) {
        out = take_chars(&p, p.len() - lua.len());
    } else {
        out = p;
    }
    push_str(&mut out, ".d.ts");
    string_from_chars(&out)
}

/// What `Path::file_stem` returns for `p`, when it is valid UTF-8.
pub uninterp spec fn file_stem_of(p: Seq<char>) -> Option<Seq<char>>;

/// `std::path::Path::new(p).file_stem()`, converted back to a `String`.
/// Its contract only names the result.
#[verifier::external_body]
pub(crate) fn file_stem(p: &str) -> (r: Option<String>)
    ensures
        r matches Some(s) ==> file_stem_of(p@) == Some(s@),
        r is None ==> file_stem_of(p@) is None,
{
    std::path::Path::new(p).file_stem().and_then(|s| s.to_str()).map(|s| s.to_string())
}

pub open spec fn ident_char(c: char) -> char {
    if is_alnum(c) || c == '_' {
        c
    } else {
        '_'
    }
}

/// The TypeScript variable name of the module: the file stem of the
/// output path (`monets` when it has none), made a valid identifier.
pub open spec fn module_name_of(p: Seq<char>) -> Seq<char> {
    let stem = match file_stem_of(p) {
        Some(s) => s,
        None => "monets"@,
    };
    if is_simple_ident(stem) {
        stem
    } else {
        let sanitized = stem.map_values(|c: char| ident_char(c));
        if sanitized.len() == 0 || !is_alpha(sanitized[0]) {
            "_"@ + sanitized
        } else {
            sanitized
        }
    }
}

pub fn derive_module_name(luau_path: &str) -> (r: String)
    ensures
        r@ == module_name_of(luau_path@),
{
    let stem = match file_stem(luau_path) {
        Some(s) => s,
        None => to_owned_string("monets"),
    };
    if is_simple_lua_ident(stem.as_str()) {
        return stem;
    }
    let c = chars_of(stem.as_str());
    let mut sanitized: Vec<char> = Vec::new();
    let mut i: usize = 0;
    while i < c.len()
        invariant
            0 <= i <= c@.len(),
            sanitized@ == c@.take(i as int).map_values(|c: char| ident_char(c)),
        decreases c@.len() - i,
    {
        let ch = c[i];
        if char_is_alnum(ch) || ch == '_' {
            sanitized.push(ch);
        } else {
            sanitized.push('_');
        }
        i += 1;
        assert(sanitized@ =~= c@.take(i as int).map_values(|c: char| ident_char(c)));
    }
    assert(c@.take(c@.len() as int) =~= c@);
    if sanitized.len() == 0 || !char_is_alpha(sanitized[0]) {
        let mut out: Vec<char> = Vec::new();
        out.push('_');
        push_chars(&mut out, &sanitized);
        assert(out@ =~= "_"@ + sanitized@) by {
            reveal_strlit("_");
        }
        string_from_chars(&out)
    } else {
        string_from_chars(&sanitized)
    }
}

} // verus!
