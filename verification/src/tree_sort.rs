//! Reordering of the flat node list: the sorts of service lists and of the
//! children of a node, each a stable sort by a key.
use vstd::prelude::*;
use crate::browse::{DiagcommSortMode, service_id_of, extract_service_id};
use crate::sort::{Precedes, stable_sort, is_stable_sort_of};
use crate::text::{
    seq_lt, lowercase, to_lower, chars_of, compare_chars, lemma_seq_lt_irreflexive,
    lemma_seq_lt_transitive, lemma_seq_lt_total,
};
use crate::tree::types::{TreeNode, NodeV, ServiceListType};

verus! {

broadcast use vstd::std_specs::vec::group_vec_axioms;

// Keys
/// The key an item is sorted by. `Id` keys order by service ID with "no ID"
/// first, `Text` keys by code point; the `Desc` forms reverse the order.
#[derive(Debug)]
pub enum RankKey {
    Id(Option<u32>),
    IdDesc(Option<u32>),
    Text(String),
    TextDesc(String),
}

/// Mathematical view of a [`RankKey`].
pub ghost enum RankKeyV {
    Id(Option<u32>),
    IdDesc(Option<u32>),
    Text(Seq<char>),
    TextDesc(Seq<char>),
}

impl View for RankKey {
    type V = RankKeyV;

    open spec fn view(&self) -> RankKeyV {
        match self {
            RankKey::Id(x) => RankKeyV::Id(*x),
            RankKey::IdDesc(x) => RankKeyV::IdDesc(*x),
            RankKey::Text(s) => RankKeyV::Text(s@),
            RankKey::TextDesc(s) => RankKeyV::TextDesc(s@),
        }
    }
}

/// The order of `Option<u32>`: `None` first, then by value.
pub open spec fn opt_lt(a: Option<u32>, b: Option<u32>) -> bool {
    match b {
        None => false,
        Some(y) => match a {
            None => true,
            Some(x) => x < y,
        },
    }
}

pub open spec fn key_rank(k: RankKeyV) -> int {
    match k {
        RankKeyV::Id(_) => 0,
        RankKeyV::IdDesc(_) => 1,
        RankKeyV::Text(_) => 2,
        RankKeyV::TextDesc(_) => 3,
    }
}

/// `a` sorts strictly before `b`.
pub open spec fn key_lt(a: RankKeyV, b: RankKeyV) -> bool {
    match (a, b) {
        (RankKeyV::Id(x), RankKeyV::Id(y)) => opt_lt(x, y),
        (RankKeyV::IdDesc(x), RankKeyV::IdDesc(y)) => opt_lt(y, x),
        (RankKeyV::Text(x), RankKeyV::Text(y)) => seq_lt(x, y),
        (RankKeyV::TextDesc(x), RankKeyV::TextDesc(y)) => seq_lt(y, x),
        _ => key_rank(a) < key_rank(b),
    }
}

fn opt_lt_exec(a: Option<u32>, b: Option<u32>) -> (r: bool)
    ensures
        r == opt_lt(a, b),
{
    match b {
        None => false,
        Some(y) => match a {
            None => true,
            Some(x) => x < y,
        },
    }
}

fn key_rank_exec(k: &RankKey) -> (r: u8)
    ensures
        r == key_rank(k@),
{
    match k {
        RankKey::Id(_) => 0,
        RankKey::IdDesc(_) => 1,
        RankKey::Text(_) => 2,
        RankKey::TextDesc(_) => 3,
    }
}

fn text_lt_exec(a: &String, b: &String) -> (r: bool)
    ensures
        r == seq_lt(a@, b@),
{
    let x = chars_of(a.as_str());
    let y = chars_of(b.as_str());
    compare_chars(x.as_slice(), y.as_slice()) < 0
}

/// Whether `a` sorts strictly before `b`.
pub fn key_lt_exec(a: &RankKey, b: &RankKey) -> (r: bool)
    ensures
        r == key_lt(a@, b@),
{
    match (a, b) {
        (RankKey::Id(x), RankKey::Id(y)) => opt_lt_exec(*x, *y),
        (RankKey::IdDesc(x), RankKey::IdDesc(y)) => opt_lt_exec(*y, *x),
        (RankKey::Text(x), RankKey::Text(y)) => text_lt_exec(x, y),
        (RankKey::TextDesc(x), RankKey::TextDesc(y)) => text_lt_exec(y, x),
        _ => key_rank_exec(a) < key_rank_exec(b),
    }
}

proof fn lemma_key_lt_irreflexive(a: RankKeyV)
    ensures
        !key_lt(a, a),
{
    match a {
        RankKeyV::Text(x) => lemma_seq_lt_irreflexive(x),
        RankKeyV::TextDesc(x) => lemma_seq_lt_irreflexive(x),
        _ => {},
    }
}

proof fn lemma_key_lt_transitive(a: RankKeyV, b: RankKeyV, c: RankKeyV)
    requires
        key_lt(a, b),
        key_lt(b, c),
    ensures
        key_lt(a, c),
{
    match (a, b, c) {
        (RankKeyV::Text(x), RankKeyV::Text(y), RankKeyV::Text(z)) => lemma_seq_lt_transitive(x, y, z),
        (RankKeyV::TextDesc(x), RankKeyV::TextDesc(y), RankKeyV::TextDesc(z)) => lemma_seq_lt_transitive(z, y, x),
        _ => {},
    }
}

/// Keys neither of which sorts before the other are equal.
proof fn lemma_key_lt_equivalent(a: RankKeyV, b: RankKeyV)
    requires
        !key_lt(a, b),
        !key_lt(b, a),
    ensures
        a == b,
{
    match (a, b) {
        (RankKeyV::Text(x), RankKeyV::Text(y)) => lemma_seq_lt_total(x, y),
        (RankKeyV::TextDesc(x), RankKeyV::TextDesc(y)) => lemma_seq_lt_total(x, y),
        _ => {},
    }
}

/// An item with the key it is sorted by.
pub struct Ranked<T> {
    pub key: RankKey,
    pub item: T,
}

impl<T> Precedes for Ranked<T> {
    open spec fn precedes(&self, other: &Self) -> bool {
        key_lt(self.key@, other.key@)
    }

    fn precedes_exec(&self, other: &Self) -> (r: bool) {
        key_lt_exec(&self.key, &other.key)
    }

    proof fn lemma_transitive(a: &Self, b: &Self, c: &Self) {
        lemma_key_lt_transitive(a.key@, b.key@, c.key@);
    }

    proof fn lemma_equivalent(a: &Self, b: &Self, c: &Self) {
        lemma_key_lt_equivalent(a.key@, b.key@);
    }

    proof fn lemma_irreflexive(a: &Self) {
        lemma_key_lt_irreflexive(a.key@);
    }
}

/// `perm` takes `input` to `out`, `out` is in key order, and items with
/// equal keys keep their order.
pub open spec fn reorders_stably<T>(
    out: Seq<T>,
    input: Seq<T>,
    key: spec_fn(T) -> RankKeyV,
    perm: Seq<int>,
) -> bool {
    &&& out.len() == input.len()
    &&& perm.len() == out.len()
    &&& forall|i: int| 0 <= i < perm.len() ==> 0 <= #[trigger] perm[i] < input.len()
    &&& forall|i: int, j: int| 0 <= i < j < perm.len() ==> perm[i] != perm[j]
    &&& forall|i: int| 0 <= i < out.len() ==> #[trigger] out[i] == input[perm[i]]
    &&& forall|i: int, j: int| 0 <= i < j < out.len() ==> !key_lt(key(out[j]), key(out[i]))
    &&& forall|i: int, j: int|
        0 <= i < j < out.len() && !key_lt(key(out[i]), key(out[j])) ==> perm[i] < perm[j]
}

/// `out` is `input` sorted stably by `key`.
pub open spec fn stable_sort_by<T>(out: Seq<T>, input: Seq<T>, key: spec_fn(T) -> RankKeyV) -> bool {
    exists|perm: Seq<int>| reorders_stably(out, input, key, perm)
}

pub open spec fn items_of<T>(s: Seq<Ranked<T>>) -> Seq<T> {
    s.map_values(|x: Ranked<T>| x.item)
}

proof fn lemma_ranked_sort<T>(s: Seq<Ranked<T>>, r: Seq<Ranked<T>>, perm: Seq<int>, key: spec_fn(T) -> RankKeyV)
    requires
        is_stable_sort_of(s, r, perm),
        forall|i: int| 0 <= i < r.len() ==> (#[trigger] r[i]).key@ == key(r[i].item),
    ensures
        reorders_stably(items_of(s), items_of(r), key, perm),
{
    let so = items_of(s);
    let ro = items_of(r);
    assert forall|i: int| 0 <= i < s.len() implies (#[trigger] s[i]).key@ == key(s[i].item) by {
        assert(s[i] == r[perm[i]]);
    }
    assert forall|i: int| 0 <= i < so.len() implies #[trigger] so[i] == ro[perm[i]] by {
        assert(s[i] == r[perm[i]]);
    }
    assert forall|i: int, j: int| 0 <= i < j < so.len() implies !key_lt(key(so[j]), key(so[i])) by {
        assert(!s[j].precedes(&s[i]));
        assert(s[i].key@ == key(s[i].item));
        assert(s[j].key@ == key(s[j].item));
    }
    assert forall|i: int, j: int|
        0 <= i < j < so.len() && !key_lt(key(so[i]), key(so[j])) implies perm[i] < perm[j] by {
        assert(s[i].key@ == key(s[i].item));
        assert(s[j].key@ == key(s[j].item));
        assert(!s[i].precedes(&s[j]));
    }
}

/// Sorts items stably by the keys given beside them.
pub(crate) fn sort_ranked<T>(v: Vec<Ranked<T>>, Ghost(key): Ghost<spec_fn(T) -> RankKeyV>) -> (r: Vec<T>)
    requires
        forall|i: int| 0 <= i < v@.len() ==> (#[trigger] v@[i]).key@ == key(v@[i].item),
    ensures
        stable_sort_by(r@, items_of(v@), key),
{
    let ghost input = v@;
    let sorted = stable_sort(v);
    let ghost perm = choose|perm: Seq<int>| is_stable_sort_of(sorted@, input, perm);
    proof {
        lemma_ranked_sort(sorted@, input, perm, key);
    }
    let mut rest = sorted;
    let mut out: Vec<T> = Vec::new();
    let ghost all = rest@;
    while rest.len() > 0
        invariant
            out@.len() + rest@.len() == all.len(),
            rest@ == all.subrange(out@.len() as int, all.len() as int),
            out@ == items_of(all).subrange(0, out@.len() as int),
        decreases rest@.len(),
    {
        let x = rest.remove(0);
        out.push(x.item);
        assert(out@ =~= items_of(all).subrange(0, out@.len() as int));
        assert(rest@ =~= all.subrange(out@.len() as int, all.len() as int));
    }
    assert(out@ =~= items_of(all));
    assert(reorders_stably(out@, items_of(input), key, perm));
    out
}

// Keys of nodes and of groups
/// The service name of a diagcomm node, empty for other nodes.
pub open spec fn name_or_empty(n: NodeV) -> Seq<char> {
    match n.payload.service_short_name() {
        Some(s) => s,
        None => Seq::empty(),
    }
}

/// The key of a node in a service list under a sort mode.
#[verifier::opaque]
pub open spec fn node_key(mode: DiagcommSortMode, n: NodeV) -> RankKeyV {
    match mode {
        DiagcommSortMode::IdAsc => RankKeyV::Id(service_id_of(n.text)),
        DiagcommSortMode::IdDesc => RankKeyV::IdDesc(service_id_of(n.text)),
        DiagcommSortMode::NameAsc => RankKeyV::Text(name_or_empty(n)),
        DiagcommSortMode::NameDesc => RankKeyV::TextDesc(name_or_empty(n)),
    }
}

pub open spec fn by_mode(mode: DiagcommSortMode) -> spec_fn(TreeNode) -> RankKeyV {
    |n: TreeNode| node_key(mode, n@)
}

/// How groups of sibling subtrees are ordered: by a service sort mode, or by
/// the lower-cased text of their first node.
#[derive(Clone, Copy, Debug, PartialEq, Eq, Structural)]
pub enum GroupOrder {
    Mode(DiagcommSortMode),
    LowerText,
}

/// The key of a group: that of its first node (an empty group has no ID,
/// an empty name, and comes first by text).
pub open spec fn group_key(order: GroupOrder, g: Seq<TreeNode>) -> RankKeyV {
    if g.len() == 0 {
        match order {
            GroupOrder::Mode(DiagcommSortMode::IdAsc) => RankKeyV::Id(None),
            GroupOrder::Mode(DiagcommSortMode::IdDesc) => RankKeyV::IdDesc(None),
            GroupOrder::Mode(DiagcommSortMode::NameAsc) => RankKeyV::Text(Seq::empty()),
            GroupOrder::Mode(DiagcommSortMode::NameDesc) => RankKeyV::TextDesc(Seq::empty()),
            GroupOrder::LowerText => RankKeyV::Id(None),
        }
    } else {
        match order {
            GroupOrder::Mode(m) => node_key(m, g[0]@),
            GroupOrder::LowerText => RankKeyV::Text(lowercase(g[0].text@)),
        }
    }
}

pub open spec fn by_group(order: GroupOrder) -> spec_fn(Seq<TreeNode>) -> RankKeyV {
    |g: Seq<TreeNode>| group_key(order, g)
}

fn node_key_exec(mode: DiagcommSortMode, n: &TreeNode) -> (r: RankKey)
    ensures
        r@ == node_key(mode, n@),
{
    proof {
        reveal(node_key);
    }
    match mode {
        DiagcommSortMode::IdAsc => RankKey::Id(extract_service_id(n.text.as_str())),
        DiagcommSortMode::IdDesc => RankKey::IdDesc(extract_service_id(n.text.as_str())),
        DiagcommSortMode::NameAsc => RankKey::Text(
            match n.service_short_name() {
                Some(s) => s.to_owned(),
                None => String::new(),
            },
        ),
        DiagcommSortMode::NameDesc => RankKey::TextDesc(
            match n.service_short_name() {
                Some(s) => s.to_owned(),
                None => String::new(),
            },
        ),
    }
}

fn group_key_exec(order: GroupOrder, g: &Vec<TreeNode>) -> (r: RankKey)
    ensures
        r@ == group_key(order, g@),
{
    if g.len() == 0 {
        match order {
            GroupOrder::Mode(DiagcommSortMode::IdAsc) => RankKey::Id(None),
            GroupOrder::Mode(DiagcommSortMode::IdDesc) => RankKey::IdDesc(None),
            GroupOrder::Mode(DiagcommSortMode::NameAsc) => RankKey::Text(String::new()),
            GroupOrder::Mode(DiagcommSortMode::NameDesc) => RankKey::TextDesc(String::new()),
            GroupOrder::LowerText => RankKey::Id(None),
        }
    } else {
        match order {
            GroupOrder::Mode(m) => node_key_exec(m, &g[0]),
            GroupOrder::LowerText => RankKey::Text(to_lower(g[0].text.as_str())),
        }
    }
}

pub open spec fn by_group_vec(order: GroupOrder) -> spec_fn(Vec<TreeNode>) -> RankKeyV {
    |g: Vec<TreeNode>| group_key(order, g@)
}

pub open spec fn vecs_view<T>(v: Seq<Vec<T>>) -> Seq<Seq<T>> {
    v.map_values(|x: Vec<T>| x@)
}

/// Sorts nodes stably by their key under `mode`.
pub fn sort_nodes_by_mode(nodes: Vec<TreeNode>, mode: DiagcommSortMode) -> (r: Vec<TreeNode>)
    ensures
        stable_sort_by(r@, nodes@, by_mode(mode)),
{
    let ghost input = nodes@;
    let mut rest = nodes;
    let mut ranked: Vec<Ranked<TreeNode>> = Vec::new();
    while rest.len() > 0
        invariant
            ranked@.len() + rest@.len() == input.len(),
            rest@ == input.subrange(ranked@.len() as int, input.len() as int),
            items_of(ranked@) == input.subrange(0, ranked@.len() as int),
            forall|i: int| 0 <= i < ranked@.len() ==> (#[trigger] ranked@[i]).key@ == by_mode(mode)(ranked@[i].item),
        decreases rest@.len(),
    {
        let x = rest.remove(0);
        let key = node_key_exec(mode, &x);
        ranked.push(Ranked { key, item: x });
        assert(items_of(ranked@) =~= input.subrange(0, ranked@.len() as int));
        assert(rest@ =~= input.subrange(ranked@.len() as int, input.len() as int));
    }
    assert(items_of(ranked@) =~= input);
    sort_ranked(ranked, Ghost(by_mode(mode)))
}

proof fn lemma_reorder_views<T>(
    out: Seq<Vec<T>>,
    input: Seq<Vec<T>>,
    key: spec_fn(Seq<T>) -> RankKeyV,
    vk: spec_fn(Vec<T>) -> RankKeyV,
    perm: Seq<int>,
)
    requires
        reorders_stably(out, input, vk, perm),
        forall|g: Vec<T>| #[trigger] vk(g) == key(g@),
    ensures
        reorders_stably(vecs_view(out), vecs_view(input), key, perm),
{
    let o = vecs_view(out);
    let n = vecs_view(input);
    assert forall|i: int| 0 <= i < o.len() implies #[trigger] o[i] == n[perm[i]] by {
        assert(out[i] == input[perm[i]]);
    }
    assert forall|i: int, j: int| 0 <= i < j < o.len() implies !key_lt(key(o[j]), key(o[i])) by {
        assert(vk(out[j]) == key(o[j]));
        assert(vk(out[i]) == key(o[i]));
    }
    assert forall|i: int, j: int| 0 <= i < j < o.len() && !key_lt(key(o[i]), key(o[j])) implies perm[i] < perm[j] by {
        assert(vk(out[j]) == key(o[j]));
        assert(vk(out[i]) == key(o[i]));
    }
}

/// Sorts groups of nodes stably by the key of each group under `order`.
pub fn sort_groups(groups: Vec<Vec<TreeNode>>, order: GroupOrder) -> (r: Vec<Vec<TreeNode>>)
    ensures
        stable_sort_by(vecs_view(r@), vecs_view(groups@), by_group(order)),
{
    let ghost input = groups@;
    let ghost vk = by_group_vec(order);
    let mut rest = groups;
    let mut ranked: Vec<Ranked<Vec<TreeNode>>> = Vec::new();
    while rest.len() > 0
        invariant
            ranked@.len() + rest@.len() == input.len(),
            rest@ == input.subrange(ranked@.len() as int, input.len() as int),
            items_of(ranked@) == input.subrange(0, ranked@.len() as int),
            vk == by_group_vec(order),
            forall|i: int| 0 <= i < ranked@.len() ==> (#[trigger] ranked@[i]).key@ == vk(ranked@[i].item),
        decreases rest@.len(),
    {
        let x = rest.remove(0);
        let key = group_key_exec(order, &x);
        ranked.push(Ranked { key, item: x });
        assert(items_of(ranked@) =~= input.subrange(0, ranked@.len() as int));
        assert(rest@ =~= input.subrange(ranked@.len() as int, input.len() as int));
    }
    assert(items_of(ranked@) =~= input);
    let r = sort_ranked(ranked, Ghost(vk));
    proof {
        let perm = choose|perm: Seq<int>| reorders_stably(r@, input, vk, perm);
        lemma_reorder_views(r@, input, by_group(order), vk, perm);
    }
    r
}

/// Sorts groups of service subtrees under a sort mode.
pub fn sort_groups_by_mode(groups: &mut Vec<Vec<TreeNode>>, mode: DiagcommSortMode)
    ensures
        stable_sort_by(vecs_view(final(groups)@), vecs_view(old(groups)@), by_group(GroupOrder::Mode(mode))),
{
    let mut taken: Vec<Vec<TreeNode>> = Vec::new();
    std::mem::swap(&mut taken, groups);
    *groups = sort_groups(taken, GroupOrder::Mode(mode));
}

// Ranges of the node list
/// The first position from `j` on whose node is not deeper than `depth`, or
/// the length.
pub open spec fn end_from(nodes: Seq<TreeNode>, depth: usize, j: int) -> int
    decreases nodes.len() - j,
{
    if j >= nodes.len() {
        nodes.len() as int
    } else if nodes[j].depth <= depth {
        j
    } else {
        end_from(nodes, depth, j + 1)
    }
}

/// Where the subtree of the node at `i` ends.
pub open spec fn subtree_end(nodes: Seq<TreeNode>, i: int) -> int {
    end_from(nodes, nodes[i].depth, i + 1)
}

proof fn lemma_end_from_bounds(nodes: Seq<TreeNode>, depth: usize, j: int)
    requires
        0 <= j <= nodes.len(),
    ensures
        j <= end_from(nodes, depth, j) <= nodes.len(),
    decreases nodes.len() - j,
{
    if j < nodes.len() && nodes[j].depth > depth {
        lemma_end_from_bounds(nodes, depth, j + 1);
    }
}

fn end_from_exec(nodes: &Vec<TreeNode>, depth: usize, start: usize) -> (r: usize)
    requires
        start <= nodes@.len(),
    ensures
        r == end_from(nodes@, depth, start as int),
        start <= r <= nodes@.len(),
{
    proof {
        lemma_end_from_bounds(nodes@, depth, start as int);
    }
    let mut j = start;
    while j < nodes.len() && nodes[j].depth > depth
        invariant
            start <= j <= nodes@.len(),
            end_from(nodes@, depth, j as int) == end_from(nodes@, depth, start as int),
        decreases nodes@.len() - j,
    {
        j = j + 1;
    }
    j
}

/// The nodes cut into groups: a new group starts at each node of `depth`
/// (and at the first node).
pub open spec fn groups_of(s: Seq<TreeNode>, depth: usize) -> Seq<Seq<TreeNode>>
    decreases s.len(),
{
    if s.len() == 0 {
        Seq::empty()
    } else {
        let g = groups_of(s.drop_last(), depth);
        if g.len() == 0 || s.last().depth == depth {
            g.push(seq![s.last()])
        } else {
            g.update(g.len() - 1, g.last().push(s.last()))
        }
    }
}

proof fn lemma_groups_of_len(s: Seq<TreeNode>, depth: usize)
    ensures
        (groups_of(s, depth).len() == 0) == (s.len() == 0),
    decreases s.len(),
{
    if s.len() > 0 {
        lemma_groups_of_len(s.drop_last(), depth);
    }
}

fn split_groups(children: Vec<TreeNode>, depth: usize) -> (r: Vec<Vec<TreeNode>>)
    ensures
        vecs_view(r@) == groups_of(children@, depth),
{
    let ghost input = children@;
    let total = children.len();
    let mut rest = children;
    let mut done: Vec<Vec<TreeNode>> = Vec::new();
    let mut current: Vec<TreeNode> = Vec::new();
    let mut k: usize = 0;
    while rest.len() > 0
        invariant
            input.len() == total,
            k + rest@.len() == input.len(),
            rest@ == input.subrange(k as int, input.len() as int),
            k == 0 ==> done@.len() == 0 && current@.len() == 0,
            k > 0 ==> current@.len() > 0 && vecs_view(done@).push(current@) == groups_of(
                input.subrange(0, k as int),
                depth,
            ),
        decreases rest@.len(),
    {
        let x = rest.remove(0);
        proof {
            let pre = input.subrange(0, k + 1);
            assert(pre.drop_last() =~= input.subrange(0, k as int));
            assert(pre.last() == x);
            lemma_groups_of_len(input.subrange(0, k as int), depth);
        }
        let ghost old_done = done@;
        let ghost old_current = current@;
        if current.len() > 0 && x.depth == depth {
            done.push(current);
            current = Vec::new();
        }
        current.push(x);
        proof {
            let g = groups_of(input.subrange(0, k as int), depth);
            if k == 0 {
                assert(current@ =~= seq![x]);
                assert(vecs_view(done@) =~= Seq::<Seq<TreeNode>>::empty());
                assert(vecs_view(done@).push(current@) =~= g.push(seq![x]));
            } else if x.depth == depth {
                assert(current@ =~= seq![x]);
                assert(vecs_view(done@) =~= vecs_view(old_done).push(old_current));
                assert(vecs_view(done@).push(current@) =~= g.push(seq![x]));
            } else {
                assert(vecs_view(old_done).push(old_current) == g);
                assert(g.last() == old_current);
                assert(vecs_view(done@) =~= vecs_view(old_done));
                assert(vecs_view(done@).push(current@) =~= g.update(g.len() - 1, g.last().push(x)));
            }
        }
        k = k + 1;
        assert(rest@ =~= input.subrange(k as int, input.len() as int));
    }
    assert(input.subrange(0, k as int) =~= input);
    let ghost before = done@;
    if current.len() > 0 {
        done.push(current);
        assert(vecs_view(done@) =~= vecs_view(before).push(current@));
    } else {
        assert(vecs_view(done@) =~= Seq::<Seq<TreeNode>>::empty());
    }
    done
}

fn flatten_groups(groups: Vec<Vec<TreeNode>>) -> (r: Vec<TreeNode>)
    ensures
        r@ == vecs_view(groups@).flatten_alt(),
{
    let ghost all = groups@;
    let total = groups.len();
    let mut rest = groups;
    let mut out: Vec<TreeNode> = Vec::new();
    let mut k: usize = 0;
    assert(vecs_view(all.subrange(0, 0)) =~= Seq::<Seq<TreeNode>>::empty());
    while rest.len() > 0
        invariant
            all.len() == total,
            k + rest@.len() == all.len(),
            rest@ == all.subrange(k as int, all.len() as int),
            out@ == vecs_view(all.subrange(0, k as int)).flatten_alt(),
        decreases rest@.len(),
    {
        let mut g = rest.remove(0);
        let ghost before = out@;
        let ghost gv = g@;
        out.append(&mut g);
        proof {
            let v = vecs_view(all.subrange(0, k + 1));
            assert(v.drop_last() =~= vecs_view(all.subrange(0, k as int)));
            assert(v.last() == gv);
        }
        k = k + 1;
        assert(rest@ =~= all.subrange(k as int, all.len() as int));
    }
    assert(all.subrange(0, k as int) =~= all);
    out
}

proof fn lemma_flatten_len_remove<T>(s: Seq<Seq<T>>, p: int)
    requires
        0 <= p < s.len(),
    ensures
        s.flatten_alt().len() == s.remove(p).flatten_alt().len() + s[p].len(),
    decreases s.len(),
{
    if p == s.len() - 1 {
        assert(s.remove(p) =~= s.drop_last());
    } else {
        lemma_flatten_len_remove(s.drop_last(), p);
        assert(s.remove(p).drop_last() =~= s.drop_last().remove(p));
        assert(s.remove(p).last() == s.last());
    }
}

/// Reordering groups keeps the total number of items.
proof fn lemma_reorder_flatten_len<T>(out: Seq<Seq<T>>, input: Seq<Seq<T>>, perm: Seq<int>)
    requires
        out.len() == input.len(),
        perm.len() == out.len(),
        forall|i: int| 0 <= i < perm.len() ==> 0 <= #[trigger] perm[i] < input.len(),
        forall|i: int, j: int| 0 <= i < j < perm.len() ==> perm[i] != perm[j],
        forall|i: int| 0 <= i < out.len() ==> #[trigger] out[i] == input[perm[i]],
    ensures
        out.flatten_alt().len() == input.flatten_alt().len(),
    decreases out.len(),
{
    if out.len() > 0 {
        let n = out.len() - 1;
        let p = perm[n];
        let input2 = input.remove(p);
        let perm2 = Seq::new(n as nat, |i: int| if perm[i] < p { perm[i] } else { perm[i] - 1 });
        let out2 = out.drop_last();
        assert forall|i: int| 0 <= i < perm2.len() implies 0 <= #[trigger] perm2[i] < input2.len() by {
            assert(perm[i] != perm[n]);
        }
        assert forall|i: int, j: int| 0 <= i < j < perm2.len() implies perm2[i] != perm2[j] by {
            assert(perm[i] != perm[n]);
            assert(perm[j] != perm[n]);
        }
        assert forall|i: int| 0 <= i < out2.len() implies #[trigger] out2[i] == input2[perm2[i]] by {
            assert(perm[i] != perm[n]);
            assert(out[i] == input[perm[i]]);
        }
        lemma_reorder_flatten_len(out2, input2, perm2);
        lemma_flatten_len_remove(input, p);
        assert(out.drop_last() == out2);
    }
}

proof fn lemma_groups_of_flatten(s: Seq<TreeNode>, depth: usize)
    ensures
        groups_of(s, depth).flatten_alt() == s,
    decreases s.len(),
{
    if s.len() > 0 {
        let g = groups_of(s.drop_last(), depth);
        lemma_groups_of_flatten(s.drop_last(), depth);
        lemma_groups_of_len(s.drop_last(), depth);
        if g.len() == 0 || s.last().depth == depth {
            let h = g.push(seq![s.last()]);
            assert(h.drop_last() == g);
            assert(s =~= s.drop_last() + seq![s.last()]);
        } else {
            let h = g.update(g.len() - 1, g.last().push(s.last()));
            assert(h.drop_last() =~= g.drop_last());
            assert(g.flatten_alt() == g.drop_last().flatten_alt() + g.last());
            assert(s =~= s.drop_last().push(s.last()));
            assert(h.flatten_alt() =~= g.flatten_alt().push(s.last()));
        }
    }
}

/// `b` is `a` with the nodes in `[start, end)` sorted stably under `mode`.
pub open spec fn nodes_sorted_in(a: Seq<TreeNode>, b: Seq<TreeNode>, start: int, end: int, mode: DiagcommSortMode) -> bool {
    &&& 0 <= start <= end <= a.len()
    &&& b.len() == a.len()
    &&& b.subrange(0, start) == a.subrange(0, start)
    &&& b.subrange(end, b.len() as int) == a.subrange(end, a.len() as int)
    &&& stable_sort_by(b.subrange(start, end), a.subrange(start, end), by_mode(mode))
}

/// `b` is `a` with the nodes in `[start, end)` cut into groups at nodes of
/// `depth` and the groups sorted stably under `order`.
pub open spec fn groups_sorted_in(
    a: Seq<TreeNode>,
    b: Seq<TreeNode>,
    start: int,
    end: int,
    depth: usize,
    order: GroupOrder,
) -> bool {
    &&& 0 <= start <= end <= a.len()
    &&& b.len() == a.len()
    &&& b.subrange(0, start) == a.subrange(0, start)
    &&& b.subrange(end, b.len() as int) == a.subrange(end, a.len() as int)
    &&& exists|gs: Seq<Seq<TreeNode>>|
        #![trigger gs.flatten_alt()]
        stable_sort_by(gs, groups_of(a.subrange(start, end), depth), by_group(order))
            && b.subrange(start, end) == gs.flatten_alt()
}

fn sort_node_range(nodes: &mut Vec<TreeNode>, start: usize, end: usize, mode: DiagcommSortMode)
    requires
        start <= end <= old(nodes)@.len(),
    ensures
        nodes_sorted_in(old(nodes)@, final(nodes)@, start as int, end as int, mode),
{
    let ghost a = nodes@;
    let mut tail = nodes.split_off(end);
    let ghost tv = tail@;
    let mid = nodes.split_off(start);
    let ghost pv = nodes@;
    assert(mid@ =~= a.subrange(start as int, end as int));
    let mut sorted = sort_nodes_by_mode(mid, mode);
    let ghost sv = sorted@;
    nodes.append(&mut sorted);
    nodes.append(&mut tail);
    proof {
        let b = nodes@;
        assert(b =~= pv + sv + tv);
        assert(b.subrange(0, start as int) =~= a.subrange(0, start as int));
        assert(b.subrange(start as int, end as int) =~= sv);
        assert(b.subrange(end as int, b.len() as int) =~= a.subrange(end as int, a.len() as int));
    }
}

fn sort_group_range(nodes: &mut Vec<TreeNode>, start: usize, end: usize, depth: usize, order: GroupOrder)
    requires
        start <= end <= old(nodes)@.len(),
    ensures
        groups_sorted_in(old(nodes)@, final(nodes)@, start as int, end as int, depth, order),
{
    let ghost a = nodes@;
    let mut tail = nodes.split_off(end);
    let ghost tv = tail@;
    let mid = nodes.split_off(start);
    let ghost pv = nodes@;
    assert(mid@ =~= a.subrange(start as int, end as int));
    let groups = split_groups(mid, depth);
    let sorted = sort_groups(groups, order);
    let ghost gs = vecs_view(sorted@);
    let mut flat = flatten_groups(sorted);
    let ghost fv = flat@;
    nodes.append(&mut flat);
    nodes.append(&mut tail);
    proof {
        let perm = choose|perm: Seq<int>| reorders_stably(gs, groups_of(a.subrange(start as int, end as int), depth), by_group(order), perm);
        lemma_reorder_flatten_len(gs, groups_of(a.subrange(start as int, end as int), depth), perm);
        lemma_groups_of_flatten(a.subrange(start as int, end as int), depth);
        let b = nodes@;
        assert(b =~= pv + fv + tv);
        assert(b.subrange(0, start as int) =~= a.subrange(0, start as int));
        assert(b.subrange(start as int, end as int) =~= gs.flatten_alt());
        assert(b.subrange(end as int, b.len() as int) =~= a.subrange(end as int, a.len() as int));
        assert(a.subrange(start as int, end as int) == old(nodes)@.subrange(start as int, end as int));
    }
}

// Service-list sections
/// The child ranges of the headers of lists of type `lt` among the first `n`
/// nodes, in order: `(i + 1, subtree_end(i))` for each such header `i`.
pub open spec fn sections_in(nodes: Seq<TreeNode>, lt: ServiceListType, n: int) -> Seq<(int, int)>
    decreases n,
{
    if n <= 0 {
        Seq::empty()
    } else {
        let prev = sections_in(nodes, lt, n - 1);
        if nodes[n - 1].payload@.service_list_type() == Some(lt) {
            prev.push((n, subtree_end(nodes, n - 1)))
        } else {
            prev
        }
    }
}

pub open spec fn sections(nodes: Seq<TreeNode>, lt: ServiceListType) -> Seq<(int, int)> {
    sections_in(nodes, lt, nodes.len() as int)
}

/// What is done to each section.
#[derive(Clone, Copy, Debug, PartialEq, Eq, Structural)]
pub enum RangeSort {
    /// Sort the nodes of the section one by one under a mode.
    Nodes(DiagcommSortMode),
    /// Sort the groups of the section (cut at the depth of its first node).
    Groups(GroupOrder),
}

pub open spec fn range_step(a: Seq<TreeNode>, b: Seq<TreeNode>, r: (int, int), how: RangeSort) -> bool {
    match how {
        RangeSort::Nodes(mode) => nodes_sorted_in(a, b, r.0, r.1, mode),
        RangeSort::Groups(order) => groups_sorted_in(
            a,
            b,
            r.0,
            r.1,
            if r.0 < r.1 {
                a[r.0].depth
            } else {
                0
            },
            order,
        ),
    }
}

/// `b` is `a` after the last `k` of `ranges` were treated, the last first.
pub open spec fn after_ranges(a: Seq<TreeNode>, ranges: Seq<(int, int)>, k: nat, b: Seq<TreeNode>, how: RangeSort) -> bool
    decreases k,
{
    if k == 0 {
        b == a
    } else {
        exists|mid: Seq<TreeNode>|
            after_ranges(a, ranges, (k - 1) as nat, mid, how) && #[trigger] range_step(
                mid,
                b,
                ranges[ranges.len() - k],
                how,
            )
    }
}

/// `b` is `a` with each section of lists of type `lt` treated, from the last
/// section to the first.
pub open spec fn sections_sorted(a: Seq<TreeNode>, b: Seq<TreeNode>, lt: ServiceListType, how: RangeSort) -> bool {
    after_ranges(a, sections(a, lt), sections(a, lt).len(), b, how)
}

pub open spec fn ranges_view(v: Seq<(usize, usize)>) -> Seq<(int, int)> {
    v.map_values(|p: (usize, usize)| (p.0 as int, p.1 as int))
}

proof fn lemma_after_ranges_next(
    a: Seq<TreeNode>,
    rs: Seq<(int, int)>,
    k: nat,
    mid: Seq<TreeNode>,
    b: Seq<TreeNode>,
    how: RangeSort,
)
    requires
        after_ranges(a, rs, k, mid, how),
        range_step(mid, b, rs[rs.len() - (k + 1)], how),
    ensures
        after_ranges(a, rs, k + 1, b, how),
{
    assert(((k + 1) - 1) as nat == k);
}

fn collect_sections(nodes: &Vec<TreeNode>, lt: ServiceListType) -> (r: Vec<(usize, usize)>)
    ensures
        ranges_view(r@) == sections(nodes@, lt),
        forall|i: int| 0 <= i < r@.len() ==> (#[trigger] r@[i]).0 <= r@[i].1 <= nodes@.len(),
{
    let mut r: Vec<(usize, usize)> = Vec::new();
    let mut i: usize = 0;
    while i < nodes.len()
        invariant
            0 <= i <= nodes@.len(),
            ranges_view(r@) == sections_in(nodes@, lt, i as int),
            forall|k: int| 0 <= k < r@.len() ==> (#[trigger] r@[k]).0 <= r@[k].1 <= nodes@.len(),
        decreases nodes@.len() - i,
    {
        let ghost before = r@;
        if nodes[i].service_list_type() == Some(lt) {
            let end = end_from_exec(nodes, nodes[i].depth, i + 1);
            r.push((i + 1, end));
            assert(ranges_view(r@) =~= ranges_view(before).push(((i + 1) as int, end as int)));
        }
        i = i + 1;
    }
    r
}

fn sort_sections(nodes: &mut Vec<TreeNode>, lt: ServiceListType, how: RangeSort)
    ensures
        sections_sorted(old(nodes)@, final(nodes)@, lt, how),
        final(nodes)@.len() == old(nodes)@.len(),
{
    let ghost a = nodes@;
    let ranges = collect_sections(nodes, lt);
    let ghost rs = sections(a, lt);
    let mut k: usize = 0;
    while k < ranges.len()
        invariant
            0 <= k <= ranges@.len(),
            ranges_view(ranges@) == rs,
            rs == sections(a, lt),
            forall|i: int| 0 <= i < ranges@.len() ==> (#[trigger] ranges@[i]).0 <= ranges@[i].1 <= a.len(),
            nodes@.len() == a.len(),
            after_ranges(a, rs, k as nat, nodes@, how),
        decreases ranges@.len() - k,
    {
        let (start, end) = ranges[ranges.len() - 1 - k];
        let ghost before = nodes@;
        assert(ranges@[ranges@.len() - 1 - k].0 <= ranges@[ranges@.len() - 1 - k].1 <= a.len());
        match how {
            RangeSort::Nodes(mode) => sort_node_range(nodes, start, end, mode),
            RangeSort::Groups(order) => {
                let depth = if start < end {
                    nodes[start].depth
                } else {
                    0
                };
                sort_group_range(nodes, start, end, depth, order);
            },
        }
        proof {
            assert(rs[rs.len() - (k + 1)] == (start as int, end as int));
            lemma_after_ranges_next(a, rs, k as nat, before, nodes@, how);
        }
        k = k + 1;
    }
}

/// Sorts the services of every Diag-Comms list under `mode`, node by node.
pub fn sort_diagcomm_nodes(nodes: &mut Vec<TreeNode>, mode: DiagcommSortMode)
    ensures
        sections_sorted(old(nodes)@, final(nodes)@, ServiceListType::DiagComms, RangeSort::Nodes(mode)),
{
    sort_sections(nodes, ServiceListType::DiagComms, RangeSort::Nodes(mode));
}

/// Sorts the entries of every list of type `list_type` by service ID, each
/// entry moving together with its subtree.
pub fn sort_service_section_by_id(nodes: &mut Vec<TreeNode>, list_type: ServiceListType)
    ensures
        sections_sorted(
            old(nodes)@,
            final(nodes)@,
            list_type,
            RangeSort::Groups(GroupOrder::Mode(DiagcommSortMode::IdAsc)),
        ),
{
    sort_sections(nodes, list_type, RangeSort::Groups(GroupOrder::Mode(DiagcommSortMode::IdAsc)));
}

/// The sorts applied when a file is loaded: Diag-Comms by ascending ID, then
/// the requests, positive and negative responses lists by ascending ID.
pub open spec fn default_sorted(a: Seq<TreeNode>, b: Seq<TreeNode>) -> bool {
    let by_id = RangeSort::Groups(GroupOrder::Mode(DiagcommSortMode::IdAsc));
    exists|n1: Seq<TreeNode>, n2: Seq<TreeNode>, n3: Seq<TreeNode>|
        #![trigger sections_sorted(a, n1, ServiceListType::DiagComms, RangeSort::Nodes(DiagcommSortMode::IdAsc)), sections_sorted(n1, n2, ServiceListType::Requests, by_id), sections_sorted(n2, n3, ServiceListType::PosResponses, by_id)]
        sections_sorted(a, n1, ServiceListType::DiagComms, RangeSort::Nodes(DiagcommSortMode::IdAsc))
            && sections_sorted(n1, n2, ServiceListType::Requests, by_id)
            && sections_sorted(n2, n3, ServiceListType::PosResponses, by_id)
            && sections_sorted(n3, b, ServiceListType::NegResponses, by_id)
}

/// Applies the load-time sorts.
pub fn apply_default_sort(nodes: &mut Vec<TreeNode>)
    ensures
        default_sorted(old(nodes)@, final(nodes)@),
{
    let ghost a = nodes@;
    sort_diagcomm_nodes(nodes, DiagcommSortMode::IdAsc);
    let ghost n1 = nodes@;
    sort_service_section_by_id(nodes, ServiceListType::Requests);
    let ghost n2 = nodes@;
    sort_service_section_by_id(nodes, ServiceListType::PosResponses);
    let ghost n3 = nodes@;
    sort_service_section_by_id(nodes, ServiceListType::NegResponses);
}

/// Sorts the direct children of the node at `parent_idx`, each child moving
/// together with its subtree; nothing happens for an index out of range.
pub fn sort_children_of(parent_idx: usize, nodes: &mut Vec<TreeNode>, order: GroupOrder)
    ensures
        parent_idx >= old(nodes)@.len() ==> final(nodes)@ == old(nodes)@,
        parent_idx < old(nodes)@.len() ==> groups_sorted_in(
            old(nodes)@,
            final(nodes)@,
            parent_idx + 1,
            subtree_end(old(nodes)@, parent_idx as int),
            if old(nodes)@[parent_idx as int].depth == usize::MAX {
                usize::MAX
            } else {
                (old(nodes)@[parent_idx as int].depth + 1) as usize
            },
            order,
        ),
{
    if parent_idx >= nodes.len() {
        return;
    }
    let parent_depth = nodes[parent_idx].depth;
    let start = parent_idx + 1;
    let end = end_from_exec(nodes, parent_depth, start);
    let child_depth = parent_depth.saturating_add(1);
    sort_group_range(nodes, start, end, child_depth, order);
}

// Sorting keeps the nodes
proof fn lemma_reorder_multiset<T>(out: Seq<T>, input: Seq<T>, perm: Seq<int>)
    requires
        out.len() == input.len(),
        perm.len() == out.len(),
        forall|i: int| 0 <= i < perm.len() ==> 0 <= #[trigger] perm[i] < input.len(),
        forall|i: int, j: int| 0 <= i < j < perm.len() ==> perm[i] != perm[j],
        forall|i: int| 0 <= i < out.len() ==> #[trigger] out[i] == input[perm[i]],
    ensures
        out.to_multiset() == input.to_multiset(),
    decreases out.len(),
{
    broadcast use vstd::multiset::group_multiset_axioms;
    broadcast use vstd::seq_lib::to_multiset_build, vstd::seq_lib::to_multiset_remove, vstd::seq_lib::to_multiset_contains;

    if out.len() == 0 {
        assert(out.to_multiset() =~= input.to_multiset());
    } else {
        let n = out.len() - 1;
        let p = perm[n];
        let input2 = input.remove(p);
        let perm2 = Seq::new(n as nat, |i: int| if perm[i] < p { perm[i] } else { perm[i] - 1 });
        let out2 = out.drop_last();
        assert forall|i: int| 0 <= i < perm2.len() implies 0 <= #[trigger] perm2[i] < input2.len() by {
            assert(perm[i] != perm[n]);
        }
        assert forall|i: int, j: int| 0 <= i < j < perm2.len() implies perm2[i] != perm2[j] by {
            assert(perm[i] != perm[n]);
            assert(perm[j] != perm[n]);
        }
        assert forall|i: int| 0 <= i < out2.len() implies #[trigger] out2[i] == input2[perm2[i]] by {
            assert(perm[i] != perm[n]);
            assert(out[i] == input[perm[i]]);
        }
        lemma_reorder_multiset(out2, input2, perm2);
        assert(out == out2.push(out[n]));
        assert(out[n] == input[p]);
        assert(input.to_multiset().contains(input[p]));
        assert(out.to_multiset() =~= input.to_multiset());
    }
}

proof fn lemma_flatten_multiset_remove<T>(s: Seq<Seq<T>>, p: int)
    requires
        0 <= p < s.len(),
    ensures
        s.flatten_alt().to_multiset() == s.remove(p).flatten_alt().to_multiset().add(s[p].to_multiset()),
    decreases s.len(),
{
    broadcast use vstd::multiset::group_multiset_axioms;
    broadcast use vstd::seq_lib::lemma_multiset_commutative;

    if p == s.len() - 1 {
        assert(s.remove(p) =~= s.drop_last());
    } else {
        lemma_flatten_multiset_remove(s.drop_last(), p);
        assert(s.remove(p).drop_last() =~= s.drop_last().remove(p));
        assert(s.remove(p).last() == s.last());
        assert(s.flatten_alt().to_multiset() =~= s.remove(p).flatten_alt().to_multiset().add(s[p].to_multiset()));
    }
}

proof fn lemma_reorder_flatten_multiset<T>(out: Seq<Seq<T>>, input: Seq<Seq<T>>, perm: Seq<int>)
    requires
        out.len() == input.len(),
        perm.len() == out.len(),
        forall|i: int| 0 <= i < perm.len() ==> 0 <= #[trigger] perm[i] < input.len(),
        forall|i: int, j: int| 0 <= i < j < perm.len() ==> perm[i] != perm[j],
        forall|i: int| 0 <= i < out.len() ==> #[trigger] out[i] == input[perm[i]],
    ensures
        out.flatten_alt().to_multiset() == input.flatten_alt().to_multiset(),
    decreases out.len(),
{
    broadcast use vstd::multiset::group_multiset_axioms;
    broadcast use vstd::seq_lib::lemma_multiset_commutative;

    if out.len() == 0 {
        assert(out.flatten_alt().to_multiset() =~= input.flatten_alt().to_multiset());
    } else {
        let n = out.len() - 1;
        let p = perm[n];
        let input2 = input.remove(p);
        let perm2 = Seq::new(n as nat, |i: int| if perm[i] < p { perm[i] } else { perm[i] - 1 });
        let out2 = out.drop_last();
        assert forall|i: int| 0 <= i < perm2.len() implies 0 <= #[trigger] perm2[i] < input2.len() by {
            assert(perm[i] != perm[n]);
        }
        assert forall|i: int, j: int| 0 <= i < j < perm2.len() implies perm2[i] != perm2[j] by {
            assert(perm[i] != perm[n]);
            assert(perm[j] != perm[n]);
        }
        assert forall|i: int| 0 <= i < out2.len() implies #[trigger] out2[i] == input2[perm2[i]] by {
            assert(perm[i] != perm[n]);
            assert(out[i] == input[perm[i]]);
        }
        lemma_reorder_flatten_multiset(out2, input2, perm2);
        lemma_flatten_multiset_remove(input, p);
        assert(out.drop_last() == out2);
        assert(out.flatten_alt().to_multiset() =~= input.flatten_alt().to_multiset());
    }
}

proof fn lemma_splice_multiset(a: Seq<TreeNode>, b: Seq<TreeNode>, start: int, end: int)
    requires
        0 <= start <= end <= a.len(),
        b.len() == a.len(),
        b.subrange(0, start) == a.subrange(0, start),
        b.subrange(end, b.len() as int) == a.subrange(end, a.len() as int),
        b.subrange(start, end).to_multiset() == a.subrange(start, end).to_multiset(),
    ensures
        b.to_multiset() == a.to_multiset(),
{
    broadcast use vstd::seq_lib::lemma_multiset_commutative;

    assert(a =~= a.subrange(0, start) + a.subrange(start, end) + a.subrange(end, a.len() as int));
    assert(b =~= b.subrange(0, start) + b.subrange(start, end) + b.subrange(end, b.len() as int));
}

/// Sorting the nodes of a range keeps the same nodes, only in another order.
pub proof fn law_sorted_nodes_kept(a: Seq<TreeNode>, b: Seq<TreeNode>, start: int, end: int, mode: DiagcommSortMode)
    requires
        nodes_sorted_in(a, b, start, end, mode),
    ensures
        b.to_multiset() == a.to_multiset(),
{
    let perm = choose|perm: Seq<int>| reorders_stably(b.subrange(start, end), a.subrange(start, end), by_mode(mode), perm);
    lemma_reorder_multiset(b.subrange(start, end), a.subrange(start, end), perm);
    lemma_splice_multiset(a, b, start, end);
}

/// Sorting the groups of a range keeps the same nodes, each group keeping
/// its own order.
pub proof fn law_sorted_groups_kept(
    a: Seq<TreeNode>,
    b: Seq<TreeNode>,
    start: int,
    end: int,
    depth: usize,
    order: GroupOrder,
)
    requires
        groups_sorted_in(a, b, start, end, depth, order),
    ensures
        b.to_multiset() == a.to_multiset(),
{
    let groups = groups_of(a.subrange(start, end), depth);
    let gs = choose|gs: Seq<Seq<TreeNode>>|
        #![trigger gs.flatten_alt()]
        stable_sort_by(gs, groups, by_group(order)) && b.subrange(start, end) == gs.flatten_alt();
    let perm = choose|perm: Seq<int>| reorders_stably(gs, groups, by_group(order), perm);
    lemma_reorder_flatten_multiset(gs, groups, perm);
    lemma_groups_of_flatten(a.subrange(start, end), depth);
    lemma_splice_multiset(a, b, start, end);
}

} // verus!
