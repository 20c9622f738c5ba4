//! The docking tree: tabbed panels arranged in nested splits.
//!
//! The executable tree ([`DockNode`]) is viewed as a [`DockTree`], whose splits hold
//! sequences. Most contracts are phrased over the panels of a tree taken in
//! left-to-right (depth-first) order, [`tree_panels`].

use vstd::prelude::*;
use vstd::laws_eq::obeys_concrete_eq;

verus! {

broadcast use vstd::std_specs::vec::group_vec_axioms;

/// The axis a split lays its children along.
#[derive(Clone, Copy, Debug, PartialEq, Eq, Structural)]
pub enum Direction {
    Horizontal,
    Vertical,
}

/// Which side of a panel a drop targets.
#[derive(Clone, Copy, Debug, PartialEq, Eq, Structural)]
pub enum Side {
    Top,
    Bottom,
    Left,
    Right,
}

/// The direction a split made on `side` runs along.
pub open spec fn side_direction(side: Side) -> Direction {
    match side {
        Side::Left | Side::Right => Direction::Horizontal,
        Side::Top | Side::Bottom => Direction::Vertical,
    }
}

impl Side {
    /// The direction a split on this side runs along.
    pub fn direction(self) -> (r: Direction)
        ensures
            r == side_direction(self),
    {
        match self {
            Side::Left | Side::Right => Direction::Horizontal,
            Side::Top | Side::Bottom => Direction::Vertical,
        }
    }
}

/// Both id types compare with `==` as mathematical equality.
pub open spec fn ids_obey_eq<TabId: PartialEq, PanelId: PartialEq>() -> bool {
    &&& obeys_concrete_eq::<TabId>()
    &&& obeys_concrete_eq::<PanelId>()
}

/// A tabbed panel containing one or more tabs.
#[derive(Debug)]
pub struct DockPanel<TabId, PanelId> {
    pub panel_id: PanelId,
    pub tabs: Vec<TabId>,
    pub active_tab_id: Option<TabId>,
}

/// The mathematical value of a [`DockPanel`].
pub struct PanelView<TabId, PanelId> {
    pub panel_id: PanelId,
    pub tabs: Seq<TabId>,
    pub active_tab_id: Option<TabId>,
}

impl<TabId, PanelId> View for DockPanel<TabId, PanelId> {
    type V = PanelView<TabId, PanelId>;

    open spec fn view(&self) -> PanelView<TabId, PanelId> {
        PanelView { panel_id: self.panel_id, tabs: self.tabs@, active_tab_id: self.active_tab_id }
    }
}

/// A node in the docking tree, either a split or a tabbed panel.
#[derive(Debug)]
pub enum DockNode<TabId, PanelId> {
    Split { direction: Direction, children: Vec<DockNode<TabId, PanelId>> },
    Panel(DockPanel<TabId, PanelId>),
}

/// The mathematical value of a [`DockNode`].
pub enum DockTree<TabId, PanelId> {
    Split { direction: Direction, children: Seq<DockTree<TabId, PanelId>> },
    Panel(PanelView<TabId, PanelId>),
}

pub open spec fn node_view<T, P>(n: DockNode<T, P>) -> DockTree<T, P>
    decreases n,
{
    match n {
        DockNode::Panel(p) => DockTree::Panel(p@),
        DockNode::Split { direction, children } => DockTree::Split {
            direction,
            children: nodes_view(children@),
        },
    }
}

pub open spec fn nodes_view<T, P>(s: Seq<DockNode<T, P>>) -> Seq<DockTree<T, P>>
    decreases s,
{
    if s.len() == 0 {
        Seq::empty()
    } else {
        seq![node_view(s[0])] + nodes_view(s.subrange(1, s.len() as int))
    }
}

impl<TabId, PanelId> View for DockNode<TabId, PanelId> {
    type V = DockTree<TabId, PanelId>;

    open spec fn view(&self) -> DockTree<TabId, PanelId> {
        node_view(*self)
    }
}

/// The view of a sequence of nodes is taken node by node.
pub proof fn lemma_nodes_view<T, P>(s: Seq<DockNode<T, P>>)
    ensures
        nodes_view(s).len() == s.len(),
        forall|i: int| 0 <= i < s.len() ==> #[trigger] nodes_view(s)[i] == node_view(s[i]),
    decreases s.len(),
{
    if s.len() > 0 {
        lemma_nodes_view(s.subrange(1, s.len() as int));
    }
}

/// Whether a node has nothing in it: a panel with no tab, or a split with no child.
pub open spec fn tree_is_empty<T, P>(t: DockTree<T, P>) -> bool {
    match t {
        DockTree::Panel(p) => p.tabs.len() == 0,
        DockTree::Split { children, .. } => children.len() == 0,
    }
}

/// The panels under a node, left to right.
pub open spec fn tree_panels<T, P>(t: DockTree<T, P>) -> Seq<PanelView<T, P>>
    decreases t,
{
    match t {
        DockTree::Panel(p) => seq![p],
        DockTree::Split { children, .. } => trees_panels(children),
    }
}

/// The panels under a sequence of nodes, left to right.
pub open spec fn trees_panels<T, P>(s: Seq<DockTree<T, P>>) -> Seq<PanelView<T, P>>
    decreases s,
{
    if s.len() == 0 {
        Seq::empty()
    } else {
        tree_panels(s[0]) + trees_panels(s.subrange(1, s.len() as int))
    }
}

/// The index of the first element of `s` that satisfies `f`.
pub open spec fn first_match<A>(s: Seq<A>, f: spec_fn(A) -> bool) -> Option<int>
    decreases s.len(),
{
    if s.len() == 0 {
        None
    } else if f(s[0]) {
        Some(0)
    } else {
        match first_match(s.subrange(1, s.len() as int), f) {
            Some(i) => Some(i + 1),
            None => None,
        }
    }
}

/// What `first_match` finds: the first element satisfying `f`, or none at all.
pub proof fn lemma_first_match<A>(s: Seq<A>, f: spec_fn(A) -> bool)
    ensures
        match first_match(s, f) {
            Some(i) => 0 <= i < s.len() && f(s[i]) && forall|j: int| 0 <= j < i ==> !f(#[trigger] s[j]),
            None => forall|j: int| 0 <= j < s.len() ==> !f(#[trigger] s[j]),
        },
    decreases s.len(),
{
    if s.len() > 0 {
        let rest = s.subrange(1, s.len() as int);
        lemma_first_match(rest, f);
        if !f(s[0]) {
            match first_match(rest, f) {
                Some(i) => {
                    assert forall|j: int| 0 <= j < i + 1 implies !f(#[trigger] s[j]) by {
                        if j > 0 {
                            assert(s[j] == rest[j - 1]);
                        }
                    }
                },
                None => {
                    assert forall|j: int| 0 <= j < s.len() implies !f(#[trigger] s[j]) by {
                        if j > 0 {
                            assert(s[j] == rest[j - 1]);
                        }
                    }
                },
            }
        }
    }
}

/// `first_match` is the least index whose element satisfies `f`.
pub proof fn lemma_first_match_is<A>(s: Seq<A>, f: spec_fn(A) -> bool, i: int)
    requires
        0 <= i < s.len(),
        f(s[i]),
        forall|j: int| 0 <= j < i ==> !f(#[trigger] s[j]),
    ensures
        first_match(s, f) == Some(i),
{
    lemma_first_match(s, f);
}

/// The index of the first occurrence of `x` in `s`.
pub open spec fn first_index_of<A>(s: Seq<A>, x: A) -> Option<int> {
    first_match(s, |y: A| y == x)
}

/// The tabs of a panel after `tab` is inserted at `position`: a tab already present is moved
/// (the position counting the tabs before the move), and the position is capped at the end.
pub open spec fn insert_tab_spec<T>(tabs: Seq<T>, tab: T, position: int) -> Seq<T> {
    match first_index_of(tabs, tab) {
        Some(e) => {
            let rest = tabs.remove(e);
            let target = if position > e { position - 1 } else { position };
            rest.insert(if target < rest.len() { target } else { rest.len() as int }, tab)
        },
        None => tabs.insert(if position < tabs.len() { position } else { tabs.len() as int }, tab),
    }
}

/// The first element of a sequence, if any.
pub open spec fn seq_first<A>(s: Seq<A>) -> Option<A> {
    if s.len() > 0 { Some(s[0]) } else { None }
}

/// The position of the first occurrence of `x` in `v`.
fn position_of<A: Copy + PartialEq>(v: &Vec<A>, x: &A) -> (r: Option<usize>)
    requires
        obeys_concrete_eq::<A>(),
    ensures
        match r {
            Some(i) => i < v@.len() && first_index_of(v@, *x) == Some(i as int),
            None => first_index_of(v@, *x) is None,
        },
{
    proof {
        reveal(obeys_concrete_eq);
        lemma_first_match(v@, |y: A| y == *x);
    }
    let mut i: usize = 0;
    while i < v.len()
        invariant
            0 <= i <= v.len(),
            obeys_concrete_eq::<A>(),
            forall|j: int| 0 <= j < i ==> v@[j] != *x,
        decreases v.len() - i,
    {
        proof {
            reveal(obeys_concrete_eq);
        }
        if v[i] == *x {
            proof {
                lemma_first_match_is(v@, |y: A| y == *x, i as int);
            }
            return Some(i);
        }
        i += 1;
    }
    proof {
        lemma_first_match(v@, |y: A| y == *x);
        if let Some(k) = first_index_of(v@, *x) {
            assert(v@[k] == *x);
        }
    }
    None
}

/// A copy of a vector of plain values.
fn copy_vec<A: Copy>(v: &Vec<A>) -> (r: Vec<A>)
    ensures
        r@ == v@,
{
    let mut out: Vec<A> = Vec::new();
    let mut i: usize = 0;
    while i < v.len()
        invariant
            0 <= i <= v.len(),
            out@ == v@.subrange(0, i as int),
        decreases v.len() - i,
    {
        out.push(v[i]);
        i += 1;
    }
    out
}

impl<TabId: Copy + PartialEq, PanelId: Copy + PartialEq> DockPanel<TabId, PanelId> {
    /// Creates a panel with the given id and tabs; its first tab, if any, is the active one.
    pub fn new(panel_id: PanelId, tabs: Vec<TabId>) -> (r: Self)
        ensures
            r@ == (PanelView { panel_id, tabs: tabs@, active_tab_id: seq_first(tabs@) }),
    {
        let active_tab_id = if tabs.len() > 0 { Some(tabs[0]) } else { None };
        DockPanel { panel_id, tabs, active_tab_id }
    }

    /// Inserts `tab` at `position` (moving it if it is already there) and makes it active.
    pub fn insert_tab(&mut self, tab: TabId, position: usize)
        requires
            obeys_concrete_eq::<TabId>(),
        ensures
            final(self)@ == (PanelView {
                panel_id: old(self)@.panel_id,
                tabs: insert_tab_spec(old(self)@.tabs, tab, position as int),
                active_tab_id: Some(tab),
            }),
    {
        let target = match position_of(&self.tabs, &tab) {
            Some(existing) => {
                self.tabs.remove(existing);
                if position > existing {
                    position - 1
                } else {
                    position
                }
            },
            None => position,
        };
        self.active_tab_id = Some(tab);
        let at = if target < self.tabs.len() { target } else { self.tabs.len() };
        self.tabs.insert(at, tab);
    }

    /// Puts `tab` at the end (removing it from wherever it was) and makes it active.
    pub fn append_tab(&mut self, tab: TabId)
        requires
            obeys_concrete_eq::<TabId>(),
        ensures
            final(self)@ == (PanelView {
                panel_id: old(self)@.panel_id,
                tabs: old(self)@.tabs.filter(|x: TabId| x != tab).push(tab),
                active_tab_id: Some(tab),
            }),
    {
        let mut kept: Vec<TabId> = Vec::new();
        let mut i: usize = 0;
        while i < self.tabs.len()
            invariant
                0 <= i <= self.tabs.len(),
                obeys_concrete_eq::<TabId>(),
                kept@ == self.tabs@.subrange(0, i as int).filter(|x: TabId| x != tab),
            decreases self.tabs.len() - i,
        {
            proof {
                reveal(obeys_concrete_eq);
                assert(self.tabs@.subrange(0, i + 1) =~= self.tabs@.subrange(0, i as int).push(
                    self.tabs@[i as int],
                ));
                self.tabs@.subrange(0, i as int).lemma_filter_push(self.tabs@[i as int], |x: TabId| x != tab);
            }
            if !(self.tabs[i] == tab) {
                kept.push(self.tabs[i]);
            }
            i += 1;
        }
        proof {
            assert(self.tabs@.subrange(0, self.tabs@.len() as int) =~= self.tabs@);
        }
        kept.push(tab);
        self.tabs = kept;
        self.active_tab_id = Some(tab);
    }
}

/// `first_match` on a concatenation looks in the first part, then in the second.
pub proof fn lemma_first_match_concat<A>(a: Seq<A>, b: Seq<A>, f: spec_fn(A) -> bool)
    ensures
        first_match(a + b, f) == match first_match(a, f) {
            Some(i) => Some(i),
            None => match first_match(b, f) {
                Some(j) => Some(j + a.len()),
                None => None,
            },
        },
{
    lemma_first_match(a, f);
    lemma_first_match(b, f);
    lemma_first_match(a + b, f);
    match first_match(a, f) {
        Some(i) => {
            assert((a + b)[i] == a[i]);
            lemma_first_match_is(a + b, f, i);
        },
        None => {
            match first_match(b, f) {
                Some(j) => {
                    assert((a + b)[j + a.len()] == b[j]);
                    assert forall|k: int| 0 <= k < j + a.len() implies !f(#[trigger] (a + b)[k]) by {
                        if k < a.len() {
                            assert((a + b)[k] == a[k]);
                        } else {
                            assert((a + b)[k] == b[k - a.len()]);
                        }
                    }
                    lemma_first_match_is(a + b, f, j + a.len());
                },
                None => {
                    if let Some(k) = first_match(a + b, f) {
                        if k < a.len() {
                            assert((a + b)[k] == a[k]);
                        } else {
                            assert((a + b)[k] == b[k - a.len()]);
                        }
                    }
                },
            }
        },
    }
}

/// The panels of a concatenation of node sequences are concatenated.
pub proof fn lemma_trees_panels_concat<T, P>(a: Seq<DockTree<T, P>>, b: Seq<DockTree<T, P>>)
    ensures
        trees_panels(a + b) == trees_panels(a) + trees_panels(b),
    decreases a.len(),
{
    if a.len() == 0 {
        assert(a + b =~= b);
    } else {
        let rest = a.subrange(1, a.len() as int);
        lemma_trees_panels_concat(rest, b);
        assert((a + b).subrange(1, (a + b).len() as int) =~= rest + b);
        assert((a + b)[0] == a[0]);
    }
}

/// The panels of a one-node sequence are that node's panels.
pub proof fn lemma_trees_panels_single<T, P>(t: DockTree<T, P>)
    ensures
        trees_panels(seq![t]) == tree_panels(t),
{
    let e = Seq::<DockTree<T, P>>::empty();
    assert(seq![t].subrange(1, 1) =~= e);
    assert(seq![t][0] == t);
    assert(trees_panels(e) == Seq::<PanelView<T, P>>::empty());
    assert(tree_panels(t) + Seq::<PanelView<T, P>>::empty() =~= tree_panels(t));
}

/// Growing a prefix of children by one node appends that node's panels.
pub proof fn lemma_trees_panels_prefix<T, P>(s: Seq<DockTree<T, P>>, i: int)
    requires
        0 <= i < s.len(),
    ensures
        trees_panels(s.subrange(0, i + 1)) == trees_panels(s.subrange(0, i)) + tree_panels(s[i]),
{
    assert(s.subrange(0, i + 1) =~= s.subrange(0, i) + seq![s[i]]);
    lemma_trees_panels_concat(s.subrange(0, i), seq![s[i]]);
    lemma_trees_panels_single(s[i]);
}

/// The panels of a node sequence, split around its `i`-th node.
pub proof fn lemma_trees_panels_split<T, P>(s: Seq<DockTree<T, P>>, i: int)
    requires
        0 <= i < s.len(),
    ensures
        trees_panels(s) == trees_panels(s.subrange(0, i)) + tree_panels(s[i]) + trees_panels(
            s.subrange(i + 1, s.len() as int),
        ),
{
    lemma_trees_panels_prefix(s, i);
    lemma_trees_panels_concat(s.subrange(0, i + 1), s.subrange(i + 1, s.len() as int));
    assert(s.subrange(0, i + 1) + s.subrange(i + 1, s.len() as int) =~= s);
}

/// Looking a panel up in a concatenation looks in the first part, then in the second.
pub proof fn lemma_panel_with_id_concat<T, P>(a: Seq<PanelView<T, P>>, b: Seq<PanelView<T, P>>, id: P)
    ensures
        panel_with_id(a + b, id) == if panel_with_id(a, id) is Some {
            panel_with_id(a, id)
        } else {
            panel_with_id(b, id)
        },
{
    let f = |p: PanelView<T, P>| p.panel_id == id;
    lemma_first_match_concat(a, b, f);
    lemma_first_match(a, f);
    lemma_first_match(b, f);
    match first_match(a, f) {
        Some(i) => {
            assert((a + b)[i] == a[i]);
        },
        None => {
            if let Some(j) = first_match(b, f) {
                assert((a + b)[j + a.len()] == b[j]);
            }
        },
    }
}

/// Locating a tab in a concatenation looks in the first part, then in the second.
pub proof fn lemma_tab_location_concat<T, P>(a: Seq<PanelView<T, P>>, b: Seq<PanelView<T, P>>, tab: T)
    ensures
        tab_location(a + b, tab) == if tab_location(a, tab) is Some {
            tab_location(a, tab)
        } else {
            tab_location(b, tab)
        },
{
    let f = |p: PanelView<T, P>| p.tabs.contains(tab);
    lemma_first_match_concat(a, b, f);
    lemma_first_match(a, f);
    lemma_first_match(b, f);
    match first_match(a, f) {
        Some(i) => {
            assert((a + b)[i] == a[i]);
            lemma_first_match(a[i].tabs, |y: T| y == tab);
        },
        None => {
            if let Some(j) = first_match(b, f) {
                assert((a + b)[j + a.len()] == b[j]);
            }
        },
    }
}

/// A tab that is in a sequence has a first occurrence.
pub proof fn lemma_contains_first_index<A>(s: Seq<A>, x: A)
    ensures
        s.contains(x) <==> first_index_of(s, x) is Some,
{
    lemma_first_match(s, |y: A| y == x);
    if let Some(i) = first_index_of(s, x) {
        assert(s[i] == x);
    }
}

/// The tree with the panel at left-to-right index `k` replaced by the node `x`.
pub open spec fn replace_panel<T, P>(t: DockTree<T, P>, k: int, x: DockTree<T, P>) -> DockTree<T, P>
    decreases t,
{
    match t {
        DockTree::Panel(_) => if k == 0 {
            x
        } else {
            t
        },
        DockTree::Split { direction, children } => DockTree::Split {
            direction,
            children: replace_in_trees(children, k, x),
        },
    }
}

/// A node sequence with the panel at left-to-right index `k` replaced by the node `x`.
pub open spec fn replace_in_trees<T, P>(s: Seq<DockTree<T, P>>, k: int, x: DockTree<T, P>) -> Seq<
    DockTree<T, P>,
>
    decreases s,
{
    if s.len() == 0 {
        s
    } else if k < tree_panels(s[0]).len() {
        seq![replace_panel(s[0], k, x)] + s.subrange(1, s.len() as int)
    } else {
        seq![s[0]] + replace_in_trees(
            s.subrange(1, s.len() as int),
            k - tree_panels(s[0]).len(),
            x,
        )
    }
}

/// Replacing a panel inside the `i`-th node of a sequence only changes that node.
pub proof fn lemma_replace_in_child<T, P>(s: Seq<DockTree<T, P>>, i: int, kc: int, x: DockTree<T, P>)
    requires
        0 <= i < s.len(),
        0 <= kc < tree_panels(s[i]).len(),
    ensures
        replace_in_trees(s, trees_panels(s.subrange(0, i)).len() + kc, x) == s.update(
            i,
            replace_panel(s[i], kc, x),
        ),
    decreases i,
{
    let rest = s.subrange(1, s.len() as int);
    if i == 0 {
        assert(s.subrange(0, 0) =~= Seq::<DockTree<T, P>>::empty());
        assert(seq![replace_panel(s[0], kc, x)] + rest =~= s.update(0, replace_panel(s[0], kc, x)));
    } else {
        assert(s.subrange(0, i) =~= seq![s[0]] + rest.subrange(0, i - 1));
        lemma_trees_panels_concat(seq![s[0]], rest.subrange(0, i - 1));
        lemma_trees_panels_single(s[0]);
        assert(rest[i - 1] == s[i]);
        lemma_replace_in_child(rest, i - 1, kc, x);
        assert(seq![s[0]] + rest.update(i - 1, replace_panel(s[i], kc, x)) =~= s.update(
            i,
            replace_panel(s[i], kc, x),
        ));
    }
}

/// The view of a node sequence after one node is replaced.
pub proof fn lemma_nodes_view_update<T, P>(s: Seq<DockNode<T, P>>, i: int, n: DockNode<T, P>)
    requires
        0 <= i < s.len(),
    ensures
        nodes_view(s.update(i, n)) == nodes_view(s).update(i, node_view(n)),
{
    lemma_nodes_view(s);
    lemma_nodes_view(s.update(i, n));
    assert(nodes_view(s.update(i, n)) =~= nodes_view(s).update(i, node_view(n)));
}

/// The index, among `tree_panels`, of the panel a search in the `i`-th node found at `kc`.
pub proof fn lemma_first_match_in_child<T, P>(
    s: Seq<DockTree<T, P>>,
    i: int,
    f: spec_fn(PanelView<T, P>) -> bool,
)
    requires
        0 <= i < s.len(),
        first_match(trees_panels(s.subrange(0, i)), f) is None,
        first_match(tree_panels(s[i]), f) is Some,
    ensures
        first_match(trees_panels(s), f) == Some(
            trees_panels(s.subrange(0, i)).len() + first_match(tree_panels(s[i]), f).unwrap(),
        ),
{
    lemma_trees_panels_split(s, i);
    lemma_first_match_concat(trees_panels(s.subrange(0, i)), tree_panels(s[i]), f);
    lemma_first_match_concat(
        trees_panels(s.subrange(0, i)) + tree_panels(s[i]),
        trees_panels(s.subrange(i + 1, s.len() as int)),
        f,
    );
}

/// A search that found nothing in the first `i + 1` nodes.
pub proof fn lemma_first_match_prefix_none<T, P>(
    s: Seq<DockTree<T, P>>,
    i: int,
    f: spec_fn(PanelView<T, P>) -> bool,
)
    requires
        0 <= i < s.len(),
        first_match(trees_panels(s.subrange(0, i)), f) is None,
        first_match(tree_panels(s[i]), f) is None,
    ensures
        first_match(trees_panels(s.subrange(0, i + 1)), f) is None,
{
    lemma_trees_panels_prefix(s, i);
    lemma_first_match_concat(trees_panels(s.subrange(0, i)), tree_panels(s[i]), f);
}

/// The value an optional reference points at.
pub open spec fn opt_deref<A>(o: Option<&A>) -> Option<A> {
    match o {
        Some(a) => Some(*a),
        None => None,
    }
}

/// A panel that `remove_tab_except` would take `tab` out of.
pub open spec fn removes_from<T, P>(except: Option<P>, tab: T) -> spec_fn(PanelView<T, P>) -> bool {
    |p: PanelView<T, P>| except != Some(p.panel_id) && p.tabs.contains(tab)
}

/// A panel without (the first occurrence of) `tab`; if `tab` was active, its first tab is.
pub open spec fn remove_tab_from<T, P>(p: PanelView<T, P>, tab: T) -> PanelView<T, P> {
    let tabs = p.tabs.remove(first_index_of(p.tabs, tab).unwrap());
    PanelView {
        panel_id: p.panel_id,
        tabs,
        active_tab_id: if p.active_tab_id == Some(tab) {
            seq_first(tabs)
        } else {
            p.active_tab_id
        },
    }
}

/// A panel as `remove_tab_except` leaves it: without `tab`, unless it is `except` or does not
/// hold `tab`.
pub open spec fn panel_after_removal<T, P>(except: Option<P>, tab: T) -> spec_fn(PanelView<T, P>) -> PanelView<T, P> {
    |p: PanelView<T, P>| if removes_from(except, tab)(p) {
        remove_tab_from(p, tab)
    } else {
        p
    }
}

/// The tree after `tab` is removed from every panel but `except`; and whether any panel lost it.
pub open spec fn tree_remove_tab_except<T, P>(t: DockTree<T, P>, tab: T, except: Option<P>) -> (
    DockTree<T, P>,
    bool,
)
    decreases t,
{
    match t {
        DockTree::Panel(p) => (DockTree::Panel(panel_after_removal(except, tab)(p)), removes_from(except, tab)(p)),
        DockTree::Split { direction, children } => {
            let r = trees_remove_tab_except(children, tab, except);
            (DockTree::Split { direction, children: r.0 }, r.1)
        },
    }
}

/// `tree_remove_tab_except` applied to each node of a sequence; and whether any panel lost `tab`.
pub open spec fn trees_remove_tab_except<T, P>(s: Seq<DockTree<T, P>>, tab: T, except: Option<P>) -> (
    Seq<DockTree<T, P>>,
    bool,
)
    decreases s,
{
    if s.len() == 0 {
        (s, false)
    } else {
        let r = trees_remove_tab_except(s.subrange(0, s.len() - 1), tab, except);
        let h = tree_remove_tab_except(s[s.len() - 1], tab, except);
        (r.0.push(h.0), r.1 || h.1)
    }
}

/// Removing a tab keeps the number of nodes.
proof fn lemma_trees_remove_len<T, P>(s: Seq<DockTree<T, P>>, tab: T, except: Option<P>)
    ensures
        trees_remove_tab_except(s, tab, except).0.len() == s.len(),
    decreases s.len(),
{
    if s.len() > 0 {
        lemma_trees_remove_len(s.subrange(0, s.len() - 1), tab, except);
    }
}

/// Removing a tab from a node changes each of its panels as `panel_after_removal` says, and
/// reports whether any of them held the tab.
proof fn lemma_tree_remove_panels<T, P>(t: DockTree<T, P>, tab: T, except: Option<P>)
    ensures
        tree_panels(tree_remove_tab_except(t, tab, except).0) == tree_panels(t).map_values(
            panel_after_removal(except, tab),
        ),
        tree_remove_tab_except(t, tab, except).1 == exists|k: int|
            0 <= k < tree_panels(t).len() && #[trigger] removes_from(except, tab)(tree_panels(t)[k]),
    decreases t,
{
    match t {
        DockTree::Panel(p) => {
            assert(tree_panels(t).map_values(panel_after_removal(except, tab)) =~= seq![panel_after_removal(except, tab)(p)]);
            if removes_from(except, tab)(p) {
                assert(removes_from(except, tab)(tree_panels(t)[0]));
            }
        },
        DockTree::Split { direction, children } => {
            assert(decreases_to!(t => children));
            lemma_trees_remove_panels(children, tab, except);
        },
    }
}

/// `lemma_tree_remove_panels` for a sequence of nodes.
proof fn lemma_trees_remove_panels<T, P>(s: Seq<DockTree<T, P>>, tab: T, except: Option<P>)
    ensures
        trees_panels(trees_remove_tab_except(s, tab, except).0) == trees_panels(s).map_values(
            panel_after_removal(except, tab),
        ),
        trees_remove_tab_except(s, tab, except).1 == exists|k: int|
            0 <= k < trees_panels(s).len() && #[trigger] removes_from(except, tab)(trees_panels(s)[k]),
    decreases s,
{
    let g = panel_after_removal(except, tab);
    let f = removes_from(except, tab);
    if s.len() == 0 {
        assert(trees_panels(s).map_values(g) =~= Seq::<PanelView<T, P>>::empty());
    } else {
        let pre = s.subrange(0, s.len() - 1);
        let x = s[s.len() - 1];
        assert(decreases_to!(s => pre));
        assert(decreases_to!(s => x));
        lemma_trees_remove_panels(pre, tab, except);
        lemma_tree_remove_panels(x, tab, except);
        let r = trees_remove_tab_except(pre, tab, except);
        let h = tree_remove_tab_except(x, tab, except);
        assert(s =~= pre + seq![x]);
        lemma_trees_panels_concat(pre, seq![x]);
        lemma_trees_panels_single(x);
        lemma_trees_panels_concat(r.0, seq![h.0]);
        lemma_trees_panels_single(h.0);
        assert(r.0.push(h.0) =~= r.0 + seq![h.0]);
        let a = trees_panels(pre);
        let b = tree_panels(x);
        assert((a + b).map_values(g) =~= a.map_values(g) + b.map_values(g));
        let all = trees_panels(s);
        assert(all == a + b);
        if r.1 || h.1 {
            if r.1 {
                let k = choose|k: int| 0 <= k < a.len() && #[trigger] f(a[k]);
                assert(f(all[k]));
            } else {
                let k = choose|k: int| 0 <= k < b.len() && #[trigger] f(b[k]);
                assert(all[a.len() + k] == b[k]);
                assert(f(all[a.len() + k]));
            }
        }
        if exists|k: int| 0 <= k < all.len() && #[trigger] f(all[k]) {
            let k = choose|k: int| 0 <= k < all.len() && #[trigger] f(all[k]);
            if k < a.len() {
                assert(all[k] == a[k]);
                assert(f(a[k]));
            } else {
                assert(all[k] == b[k - a.len()]);
                assert(f(b[k - a.len()]));
            }
        }
    }
}

/// A panel whose id is `id`.
pub open spec fn has_id<T, P>(id: P) -> spec_fn(PanelView<T, P>) -> bool {
    |p: PanelView<T, P>| p.panel_id == id
}

/// The split that replaces panel `old` when `new_panel` is docked on its `side`.
pub open spec fn split_node<T, P>(old: PanelView<T, P>, side: Side, new_panel: PanelView<T, P>) -> DockTree<
    T,
    P,
> {
    let n = DockTree::Panel(new_panel);
    let o = DockTree::Panel(old);
    DockTree::Split {
        direction: side_direction(side),
        children: match side {
            Side::Left | Side::Top => seq![n, o],
            Side::Right | Side::Bottom => seq![o, n],
        },
    }
}

/// The tree after the first panel, left to right, with id `id` is split to hold `new_panel`
/// on its `side`; and whether there was such a panel.
pub open spec fn tree_split_panel<T, P>(
    t: DockTree<T, P>,
    id: P,
    side: Side,
    new_panel: PanelView<T, P>,
) -> (DockTree<T, P>, bool) {
    let ps = tree_panels(t);
    match first_match(ps, has_id(id)) {
        Some(k) => (replace_panel(t, k, split_node(ps[k], side, new_panel)), true),
        None => (t, false),
    }
}

/// A node after its empty panels are removed: every split keeps only its children that are
/// not empty once cleaned, and a split left with one child is replaced by that child.
pub open spec fn tree_close_empty<T, P>(t: DockTree<T, P>) -> DockTree<T, P>
    decreases t,
{
    match t {
        DockTree::Panel(_) => t,
        DockTree::Split { direction, children } => {
            let cs = close_trees(children);
            if cs.len() == 1 {
                cs[0]
            } else {
                DockTree::Split { direction, children: cs }
            }
        },
    }
}

/// The cleaned children of a split that are not empty, in order.
pub open spec fn close_trees<T, P>(s: Seq<DockTree<T, P>>) -> Seq<DockTree<T, P>>
    decreases s,
{
    if s.len() == 0 {
        s
    } else {
        let pre = close_trees(s.subrange(0, s.len() - 1));
        let c = tree_close_empty(s[s.len() - 1]);
        if tree_is_empty(c) {
            pre
        } else {
            pre.push(c)
        }
    }
}

/// The panels of a tree whose `k`-th panel was replaced by the node `x`.
pub proof fn lemma_panels_replace<T, P>(t: DockTree<T, P>, k: int, x: DockTree<T, P>)
    requires
        0 <= k < tree_panels(t).len(),
    ensures
        tree_panels(replace_panel(t, k, x)) == tree_panels(t).subrange(0, k) + tree_panels(x)
            + tree_panels(t).subrange(k + 1, tree_panels(t).len() as int),
    decreases t,
{
    match t {
        DockTree::Panel(p) => {
            assert(tree_panels(t).subrange(0, 0) =~= Seq::<PanelView<T, P>>::empty());
            assert(tree_panels(t).subrange(1, 1) =~= Seq::<PanelView<T, P>>::empty());
            assert(Seq::<PanelView<T, P>>::empty() + tree_panels(x) + Seq::<PanelView<T, P>>::empty()
                =~= tree_panels(x));
        },
        DockTree::Split { direction, children } => {
            lemma_panels_replace_seq(children, k, x);
        },
    }
}

/// The panels of a node sequence whose `k`-th panel was replaced by the node `x`.
pub proof fn lemma_panels_replace_seq<T, P>(s: Seq<DockTree<T, P>>, k: int, x: DockTree<T, P>)
    requires
        0 <= k < trees_panels(s).len(),
    ensures
        trees_panels(replace_in_trees(s, k, x)) == trees_panels(s).subrange(0, k) + tree_panels(x)
            + trees_panels(s).subrange(k + 1, trees_panels(s).len() as int),
    decreases s,
{
    let rest = s.subrange(1, s.len() as int);
    let ps = trees_panels(s);
    let n0 = tree_panels(s[0]).len();
    if k < n0 {
        lemma_panels_replace(s[0], k, x);
        lemma_trees_panels_concat(seq![replace_panel(s[0], k, x)], rest);
        lemma_trees_panels_single(replace_panel(s[0], k, x));
        assert(ps == tree_panels(s[0]) + trees_panels(rest));
        assert(ps.subrange(0, k) =~= tree_panels(s[0]).subrange(0, k));
        assert(ps.subrange(k + 1, ps.len() as int) =~= tree_panels(s[0]).subrange(k + 1, n0 as int)
            + trees_panels(rest));
        assert(trees_panels(replace_in_trees(s, k, x)) =~= ps.subrange(0, k) + tree_panels(x)
            + ps.subrange(k + 1, ps.len() as int));
    } else {
        lemma_panels_replace_seq(rest, k - n0, x);
        lemma_trees_panels_concat(seq![s[0]], replace_in_trees(rest, k - n0, x));
        lemma_trees_panels_single(s[0]);
        let pr = trees_panels(rest);
        assert(ps == tree_panels(s[0]) + pr);
        assert(ps.subrange(0, k) =~= tree_panels(s[0]) + pr.subrange(0, k - n0));
        assert(ps.subrange(k + 1, ps.len() as int) =~= pr.subrange(k - n0 + 1, pr.len() as int));
        assert(trees_panels(replace_in_trees(s, k, x)) =~= ps.subrange(0, k) + tree_panels(x)
            + ps.subrange(k + 1, ps.len() as int));
    }
}

/// Splitting a panel docks the new panel right beside it: before it on the left or top side,
/// after it on the right or bottom side; every other panel keeps its place. Nothing changes
/// when no panel has the id.
pub proof fn law_split_panel_docks_beside<T, P>(
    t: DockTree<T, P>,
    id: P,
    side: Side,
    new_panel: PanelView<T, P>,
)
    ensures
        ({
            let (t2, split) = tree_split_panel(t, id, side, new_panel);
            let ps = tree_panels(t);
            &&& split <==> panel_with_id(ps, id) is Some
            &&& !split ==> t2 == t
            &&& split ==> {
                let k = first_match(ps, has_id(id)).unwrap();
                let at = match side {
                    Side::Left | Side::Top => k,
                    Side::Right | Side::Bottom => k + 1,
                };
                tree_panels(t2) == ps.insert(at, new_panel)
            }
        }),
{
    let ps = tree_panels(t);
    lemma_first_match(ps, has_id(id));
    if let Some(k) = first_match(ps, has_id(id)) {
        let x = split_node(ps[k], side, new_panel);
        lemma_panels_replace(t, k, x);
        reveal_with_fuel(trees_panels, 3);
        lemma_trees_panels_concat(seq![DockTree::Panel(new_panel)], seq![DockTree::Panel(ps[k])]);
        lemma_trees_panels_single(DockTree::Panel(new_panel));
        lemma_trees_panels_single(DockTree::Panel(ps[k]));
        assert(seq![DockTree::Panel(new_panel), DockTree::Panel(ps[k])] =~= seq![DockTree::Panel(new_panel)]
            + seq![DockTree::Panel(ps[k])]);
        assert(seq![DockTree::Panel(ps[k]), DockTree::Panel(new_panel)] =~= seq![DockTree::Panel(ps[k])]
            + seq![DockTree::Panel(new_panel)]);
        lemma_trees_panels_concat(seq![DockTree::Panel(ps[k])], seq![DockTree::Panel(new_panel)]);
        let t2 = replace_panel(t, k, x);
        match side {
            Side::Left | Side::Top => {
                assert(tree_panels(t2) =~= ps.insert(k, new_panel));
            },
            Side::Right | Side::Bottom => {
                assert(tree_panels(t2) =~= ps.insert(k + 1, new_panel));
            },
        }
    }
}

/// `remove_tab_except` takes `tab` out of every panel but `except` (its first occurrence in
/// each; a panel whose active tab it was activates its first remaining tab), leaves every other
/// panel as it was and in its place, and reports whether any panel lost the tab.
pub proof fn law_remove_tab_except_removes_everywhere<T, P>(t: DockTree<T, P>, tab: T, except: Option<P>)
    ensures
        ({
            let (t2, removed) = tree_remove_tab_except(t, tab, except);
            let ps = tree_panels(t);
            &&& tree_panels(t2).len() == ps.len()
            &&& forall|k: int|
                0 <= k < ps.len() ==> #[trigger] tree_panels(t2)[k] == if except != Some(ps[k].panel_id)
                    && ps[k].tabs.contains(tab) {
                    remove_tab_from(ps[k], tab)
                } else {
                    ps[k]
                }
            &&& removed == exists|k: int|
                0 <= k < ps.len() && except != Some(#[trigger] ps[k].panel_id) && ps[k].tabs.contains(tab)
        }),
{
    lemma_tree_remove_panels(t, tab, except);
    let ps = tree_panels(t);
    let f = removes_from(except, tab);
    assert forall|k: int| 0 <= k < ps.len() && #[trigger] f(ps[k]) implies except != Some(ps[k].panel_id)
        && ps[k].tabs.contains(tab) by {}
    assert forall|k: int| 0 <= k < ps.len() && except != Some(#[trigger] ps[k].panel_id) && ps[k].tabs.contains(tab)
        implies f(ps[k]) by {}
}

/// No split below the root is empty, and no split has exactly one child.
pub open spec fn tree_tidy<T, P>(t: DockTree<T, P>) -> bool
    decreases t,
{
    match t {
        DockTree::Panel(_) => true,
        DockTree::Split { children, .. } => children.len() != 1 && trees_tidy(children),
    }
}

/// Every node of the sequence is tidy and not empty.
pub open spec fn trees_tidy<T, P>(s: Seq<DockTree<T, P>>) -> bool
    decreases s,
{
    if s.len() == 0 {
        true
    } else {
        &&& !tree_is_empty(s[s.len() - 1])
        &&& tree_tidy(s[s.len() - 1])
        &&& trees_tidy(s.subrange(0, s.len() - 1))
    }
}

/// A panel that holds at least one tab.
pub open spec fn has_tabs<T, P>() -> spec_fn(PanelView<T, P>) -> bool {
    |p: PanelView<T, P>| p.tabs.len() > 0
}

proof fn lemma_close_tidy<T, P>(t: DockTree<T, P>)
    ensures
        tree_tidy(tree_close_empty(t)),
    decreases t,
{
    if let DockTree::Split { direction, children } = t {
        lemma_close_trees_tidy(children);
        let cs = close_trees(children);
        if cs.len() == 1 {
            assert(cs.subrange(0, 0) =~= Seq::<DockTree<T, P>>::empty());
        }
    }
}

proof fn lemma_close_trees_tidy<T, P>(s: Seq<DockTree<T, P>>)
    ensures
        trees_tidy(close_trees(s)),
    decreases s,
{
    if s.len() > 0 {
        let init = s.subrange(0, s.len() - 1);
        lemma_close_trees_tidy(init);
        lemma_close_tidy(s[s.len() - 1]);
        let pre = close_trees(init);
        let c = tree_close_empty(s[s.len() - 1]);
        assert(pre.push(c).subrange(0, pre.len() as int) =~= pre);
    }
}

proof fn lemma_tidy_fixed<T, P>(t: DockTree<T, P>)
    requires
        tree_tidy(t),
    ensures
        tree_close_empty(t) == t,
    decreases t,
{
    if let DockTree::Split { direction, children } = t {
        lemma_tidy_fixed_seq(children);
    }
}

proof fn lemma_tidy_fixed_seq<T, P>(s: Seq<DockTree<T, P>>)
    requires
        trees_tidy(s),
    ensures
        close_trees(s) == s,
    decreases s,
{
    if s.len() > 0 {
        let init = s.subrange(0, s.len() - 1);
        lemma_tidy_fixed_seq(init);
        lemma_tidy_fixed(s[s.len() - 1]);
        assert(init.push(s[s.len() - 1]) =~= s);
    }
}

proof fn lemma_close_panels<T, P>(t: DockTree<T, P>)
    ensures
        (t is Split || !tree_is_empty(tree_close_empty(t))) ==> tree_panels(tree_close_empty(t))
            == tree_panels(t).filter(has_tabs()),
        tree_is_empty(tree_close_empty(t)) ==> tree_panels(t).filter(has_tabs()).len() == 0,
    decreases t,
{
    reveal_with_fuel(Seq::filter, 2);
    match t {
        DockTree::Panel(p) => {
            assert(seq![p].drop_last() =~= Seq::<PanelView<T, P>>::empty());
            assert(Seq::<PanelView<T, P>>::empty().push(p) =~= seq![p]);
        },
        DockTree::Split { direction, children } => {
            lemma_close_trees_panels(children);
            let cs = close_trees(children);
            if cs.len() == 1 {
                lemma_trees_panels_single(cs[0]);
                assert(cs =~= seq![cs[0]]);
            }
            if cs.len() == 0 {
                assert(trees_panels(cs) == Seq::<PanelView<T, P>>::empty());
            }
            lemma_close_trees_tidy(children);
        },
    }
}

proof fn lemma_close_trees_panels<T, P>(s: Seq<DockTree<T, P>>)
    ensures
        trees_panels(close_trees(s)) == trees_panels(s).filter(has_tabs()),
    decreases s,
{
    broadcast use Seq::filter_distributes_over_add;

    if s.len() == 0 {
        reveal_with_fuel(Seq::filter, 1);
    } else {
        let init = s.subrange(0, s.len() - 1);
        let last = s[s.len() - 1];
        lemma_close_trees_panels(init);
        lemma_close_panels(last);
        lemma_close_tidy(last);
        assert(init + seq![last] =~= s);
        lemma_trees_panels_concat(init, seq![last]);
        lemma_trees_panels_single(last);
        let pre = close_trees(init);
        let c = tree_close_empty(last);
        if !tree_is_empty(c) {
            assert(pre.push(c) =~= pre + seq![c]);
            lemma_trees_panels_concat(pre, seq![c]);
            lemma_trees_panels_single(c);
            if last is Panel {
                assert(c == last);
            }
        } else {
            assert(tree_panels(last).filter(has_tabs()) =~= Seq::<PanelView<T, P>>::empty());
            assert(trees_panels(pre) + Seq::<PanelView<T, P>>::empty() =~= trees_panels(pre));
        }
    }
}

/// Cleaning a tree leaves it tidy: no split below the root is empty and no split has a single
/// child.
pub proof fn law_close_empty_panels_tidies<T, P>(t: DockTree<T, P>)
    ensures
        tree_tidy(tree_close_empty(t)),
{
    lemma_close_tidy(t);
}

/// Cleaning a tidy tree changes nothing, so cleaning twice is cleaning once.
pub proof fn law_close_empty_panels_idempotent<T, P>(t: DockTree<T, P>)
    ensures
        tree_tidy(t) ==> tree_close_empty(t) == t,
        tree_close_empty(tree_close_empty(t)) == tree_close_empty(t),
{
    if tree_tidy(t) {
        lemma_tidy_fixed(t);
    }
    lemma_close_tidy(t);
    lemma_tidy_fixed(tree_close_empty(t));
}

/// Cleaning a split keeps exactly the panels that hold tabs, in the same order.
pub proof fn law_close_empty_panels_keeps_tabbed_panels<T, P>(t: DockTree<T, P>)
    requires
        t is Split,
    ensures
        tree_panels(tree_close_empty(t)) == tree_panels(t).filter(has_tabs()),
{
    lemma_close_panels(t);
}

/// Filtering out `x` ignores an `x` placed at `at`.
proof fn lemma_filter_skips_at<A>(s: Seq<A>, at: int, x: A)
    requires
        0 <= at <= s.len(),
    ensures
        s.insert(at, x).filter(|y: A| y != x) == s.filter(|y: A| y != x),
{
    broadcast use Seq::filter_distributes_over_add;

    let f = |y: A| y != x;
    reveal_with_fuel(Seq::filter, 2);
    assert(s.insert(at, x) =~= s.subrange(0, at) + seq![x] + s.subrange(at, s.len() as int));
    assert(s =~= s.subrange(0, at) + s.subrange(at, s.len() as int));
    assert(seq![x].drop_last() =~= Seq::<A>::empty());
    assert(seq![x].filter(f) =~= Seq::<A>::empty());
    assert(s.subrange(0, at).filter(f) + Seq::<A>::empty() =~= s.subrange(0, at).filter(f));
}

/// Inserting a tab only moves that tab: it ends up at the capped position, it is active, and
/// the other tabs keep their order. The tab count grows only if the tab was not there.
pub proof fn law_insert_tab_moves_only_the_tab<T>(tabs: Seq<T>, tab: T, position: int)
    requires
        position >= 0,
    ensures
        ({
            let r = insert_tab_spec(tabs, tab, position);
            &&& r.contains(tab)
            &&& r.filter(|y: T| y != tab) == tabs.filter(|y: T| y != tab)
            &&& r.len() == if tabs.contains(tab) {
                tabs.len()
            } else {
                tabs.len() + 1
            }
        }),
{
    lemma_contains_first_index(tabs, tab);
    lemma_first_match(tabs, |y: T| y == tab);
    match first_index_of(tabs, tab) {
        Some(e) => {
            let rest = tabs.remove(e);
            let target = if position > e { position - 1 } else { position };
            let at = if target < rest.len() { target } else { rest.len() as int };
            lemma_filter_skips_at(rest, at, tab);
            assert(tabs =~= rest.insert(e, tab));
            lemma_filter_skips_at(rest, e, tab);
            assert(rest.insert(at, tab)[at] == tab);
        },
        None => {
            let at = if position < tabs.len() { position } else { tabs.len() as int };
            lemma_filter_skips_at(tabs, at, tab);
            assert(tabs.insert(at, tab)[at] == tab);
        },
    }
}

/// Moving a tab puts it at the requested position among the other tabs, capped at the end: a
/// tab at index `e` moved to a position after it lands one place earlier (the tabs between
/// shift left), and one moved to a position at or before its index lands exactly there.
pub proof fn law_insert_tab_lands_at_the_position<T>(tabs: Seq<T>, tab: T, position: int, e: int)
    requires
        position >= 0,
        0 <= e < tabs.len(),
        tabs[e] == tab,
        forall|j: int| 0 <= j < e ==> tabs[j] != tab,
    ensures
        ({
            let r = insert_tab_spec(tabs, tab, position);
            let p = if e < position { position - 1 } else { position };
            &&& r.len() == tabs.len()
            &&& r[if p < tabs.len() - 1 { p } else { tabs.len() - 1 }] == tab
        }),
{
    lemma_first_match_is(tabs, |y: T| y == tab, e);
}

/// A tab that was not in the panel is inserted at the requested position, capped at the end.
pub proof fn law_insert_new_tab_lands_at_the_position<T>(tabs: Seq<T>, tab: T, position: int)
    requires
        position >= 0,
        !tabs.contains(tab),
    ensures
        ({
            let r = insert_tab_spec(tabs, tab, position);
            &&& r.len() == tabs.len() + 1
            &&& r[if position < tabs.len() { position } else { tabs.len() as int }] == tab
        }),
{
    lemma_contains_first_index(tabs, tab);
}

/// Taking a tab out of a panel drops one copy of it and keeps the other tabs in order; the
/// active tab stays as it was unless it was the tab taken out, in which case the first
/// remaining tab (if any) becomes active.
pub proof fn law_remove_tab_keeps_the_other_active_tab<T, P>(p: PanelView<T, P>, tab: T)
    requires
        p.tabs.contains(tab),
    ensures
        ({
            let q = remove_tab_from(p, tab);
            &&& q.panel_id == p.panel_id
            &&& q.tabs.len() == p.tabs.len() - 1
            &&& q.tabs.filter(|y: T| y != tab) == p.tabs.filter(|y: T| y != tab)
            &&& p.active_tab_id != Some(tab) ==> q.active_tab_id == p.active_tab_id
            &&& p.active_tab_id == Some(tab) ==> q.active_tab_id == if q.tabs.len() > 0 {
                Some(q.tabs[0])
            } else {
                None
            }
        }),
{
    lemma_contains_first_index(p.tabs, tab);
    lemma_first_match(p.tabs, |y: T| y == tab);
    let e = first_index_of(p.tabs, tab).unwrap();
    let rest = p.tabs.remove(e);
    assert(p.tabs =~= rest.insert(e, tab));
    lemma_filter_skips_at(rest, e, tab);
}

/// A split docks the new panel along the side's axis: side by side (a horizontal split) on
/// the left or right, one above the other (a vertical split) on top or bottom, the new panel
/// first on the left or top. Splitting a lone panel makes that split the whole tree.
pub proof fn law_split_runs_along_the_side<T, P>(old: PanelView<T, P>, side: Side, new_panel: PanelView<T, P>)
    ensures
        split_node(old, side, new_panel) == (DockTree::Split {
            direction: if side is Left || side is Right {
                Direction::Horizontal
            } else {
                Direction::Vertical
            },
            children: if side is Left || side is Top {
                seq![DockTree::Panel(new_panel), DockTree::Panel(old)]
            } else {
                seq![DockTree::Panel(old), DockTree::Panel(new_panel)]
            },
        }),
        tree_split_panel(DockTree::Panel(old), old.panel_id, side, new_panel) == (
            split_node(old, side, new_panel),
            true,
        ),
{
    let ps = tree_panels(DockTree::Panel(old));
    assert(ps =~= seq![old]);
    lemma_first_match_is(ps, has_id(old.panel_id), 0);
}

/// Appending a tab leaves it last and the only copy of itself; the other tabs keep their order.
pub proof fn law_append_tab_puts_it_last<T>(tabs: Seq<T>, tab: T)
    ensures
        ({
            let r = tabs.filter(|y: T| y != tab).push(tab);
            &&& r.last() == tab
            &&& forall|i: int| 0 <= i < r.len() - 1 ==> r[i] != tab
        }),
{
    let f = |y: T| y != tab;
    assert forall|i: int| 0 <= i < tabs.filter(f).len() implies tabs.filter(f)[i] != tab by {
        tabs.lemma_filter_pred(f, i);
    }
}

/// A node with nothing in it, used to hold a place while a node is rebuilt.
fn placeholder<T, P>() -> (r: DockNode<T, P>)
    ensures
        r@ == (DockTree::<T, P>::Split { direction: Direction::Horizontal, children: Seq::empty() }),
{
    let r = DockNode::Split { direction: Direction::Horizontal, children: Vec::new() };
    proof {
        assert(nodes_view(Seq::<DockNode<T, P>>::empty()) =~= Seq::empty());
    }
    r
}

/// The first panel, left to right, whose id is `id`.
pub open spec fn panel_with_id<T, P>(ps: Seq<PanelView<T, P>>, id: P) -> Option<PanelView<T, P>> {
    match first_match(ps, |p: PanelView<T, P>| p.panel_id == id) {
        Some(k) => Some(ps[k]),
        None => None,
    }
}

/// Where `tab` is: the id of the first panel holding it and its position there.
pub open spec fn tab_location<T, P>(ps: Seq<PanelView<T, P>>, tab: T) -> Option<(P, int)> {
    match first_match(ps, |p: PanelView<T, P>| p.tabs.contains(tab)) {
        Some(k) => match first_index_of(ps[k].tabs, tab) {
            Some(pos) => Some((ps[k].panel_id, pos)),
            None => None,
        },
        None => None,
    }
}

impl<TabId: Copy + PartialEq, PanelId: Copy + PartialEq> DockNode<TabId, PanelId> {
    /// Whether this node is empty: a panel without tabs or a split without children.
    pub fn is_empty(&self) -> (r: bool)
        ensures
            r == tree_is_empty(self@),
    {
        proof {
            lemma_nodes_view(self->children@);
        }
        match self {
            DockNode::Panel(panel) => panel.tabs.len() == 0,
            DockNode::Split { children, .. } => children.len() == 0,
        }
    }

    /// The first panel, left to right, with the given id.
    pub fn panel(&self, id: &PanelId) -> (r: Option<&DockPanel<TabId, PanelId>>)
        requires
            ids_obey_eq::<TabId, PanelId>(),
        ensures
            match r {
                Some(p) => panel_with_id(tree_panels(self@), *id) == Some(p@),
                None => panel_with_id(tree_panels(self@), *id) is None,
            },
        decreases self,
    {
        match self {
            DockNode::Panel(panel) => {
                proof {
                    reveal(obeys_concrete_eq);
                    reveal_with_fuel(first_match, 2);
                }
                if panel.panel_id == *id {
                    Some(panel)
                } else {
                    None
                }
            },
            DockNode::Split { children, .. } => {
                let ghost vs = nodes_view(children@);
                proof {
                    lemma_nodes_view(children@);
                }
                let mut i: usize = 0;
                while i < children.len()
                    invariant
                        0 <= i <= children.len(),
                        ids_obey_eq::<TabId, PanelId>(),
                        vs == nodes_view(children@),
                        vs.len() == children@.len(),
                        forall|j: int| 0 <= j < vs.len() ==> #[trigger] vs[j] == node_view(children@[j]),
                        *self == (DockNode::Split { direction: self->direction, children: *children }),
                        panel_with_id(trees_panels(vs.subrange(0, i as int)), *id) is None,
                    decreases children.len() - i,
                {
                    proof {
                        assert(decreases_to!(*self => self->children));
                        assert(decreases_to!(self->children => self->children@));
                        assert(decreases_to!(self->children@ => self->children@[i as int]));
                    }
                    match children[i].panel(id) {
                        Some(p) => {
                            proof {
                                lemma_trees_panels_split(vs, i as int);
                                lemma_panel_with_id_concat(
                                    trees_panels(vs.subrange(0, i as int)),
                                    tree_panels(vs[i as int]),
                                    *id,
                                );
                                lemma_panel_with_id_concat(
                                    trees_panels(vs.subrange(0, i as int)) + tree_panels(vs[i as int]),
                                    trees_panels(vs.subrange(i + 1, vs.len() as int)),
                                    *id,
                                );
                            }
                            return Some(p);
                        },
                        None => {
                            proof {
                                lemma_trees_panels_prefix(vs, i as int);
                                lemma_panel_with_id_concat(
                                    trees_panels(vs.subrange(0, i as int)),
                                    tree_panels(vs[i as int]),
                                    *id,
                                );
                            }
                        },
                    }
                    i += 1;
                }
                proof {
                    assert(vs.subrange(0, vs.len() as int) =~= vs);
                }
                None
            },
        }
    }

    /// The first (left-most) panel under this node.
    pub fn first_panel(&self) -> (r: Option<&DockPanel<TabId, PanelId>>)
        ensures
            match r {
                Some(p) => seq_first(tree_panels(self@)) == Some(p@),
                None => seq_first(tree_panels(self@)) is None,
            },
        decreases self,
    {
        match self {
            DockNode::Panel(panel) => Some(panel),
            DockNode::Split { children, .. } => {
                let ghost vs = nodes_view(children@);
                proof {
                    lemma_nodes_view(children@);
                }
                let mut i: usize = 0;
                while i < children.len()
                    invariant
                        0 <= i <= children.len(),
                        vs == nodes_view(children@),
                        vs.len() == children@.len(),
                        forall|j: int| 0 <= j < vs.len() ==> #[trigger] vs[j] == node_view(children@[j]),
                        *self == (DockNode::Split { direction: self->direction, children: *children }),
                        trees_panels(vs.subrange(0, i as int)).len() == 0,
                    decreases children.len() - i,
                {
                    proof {
                        assert(decreases_to!(*self => self->children));
                        assert(decreases_to!(self->children => self->children@));
                        assert(decreases_to!(self->children@ => self->children@[i as int]));
                        lemma_trees_panels_split(vs, i as int);
                        lemma_trees_panels_prefix(vs, i as int);
                    }
                    match children[i].first_panel() {
                        Some(p) => {
                            return Some(p);
                        },
                        None => {},
                    }
                    i += 1;
                }
                proof {
                    assert(vs.subrange(0, vs.len() as int) =~= vs);
                }
                None
            },
        }
    }

    /// Where `tab` is: the first panel, left to right, that holds it, and its position there.
    pub fn find_tab(&self, tab: &TabId) -> (r: Option<(PanelId, usize)>)
        requires
            ids_obey_eq::<TabId, PanelId>(),
        ensures
            match r {
                Some((id, pos)) => tab_location(tree_panels(self@), *tab) == Some((id, pos as int)),
                None => tab_location(tree_panels(self@), *tab) is None,
            },
        decreases self,
    {
        match self {
            DockNode::Panel(panel) => {
                proof {
                    reveal_with_fuel(first_match, 2);
                    lemma_contains_first_index(panel.tabs@, *tab);
                }
                match position_of(&panel.tabs, tab) {
                    Some(position) => Some((panel.panel_id, position)),
                    None => None,
                }
            },
            DockNode::Split { children, .. } => {
                let ghost vs = nodes_view(children@);
                proof {
                    lemma_nodes_view(children@);
                }
                let mut i: usize = 0;
                while i < children.len()
                    invariant
                        0 <= i <= children.len(),
                        ids_obey_eq::<TabId, PanelId>(),
                        vs == nodes_view(children@),
                        vs.len() == children@.len(),
                        forall|j: int| 0 <= j < vs.len() ==> #[trigger] vs[j] == node_view(children@[j]),
                        *self == (DockNode::Split { direction: self->direction, children: *children }),
                        tab_location(trees_panels(vs.subrange(0, i as int)), *tab) is None,
                    decreases children.len() - i,
                {
                    proof {
                        assert(decreases_to!(*self => self->children));
                        assert(decreases_to!(self->children => self->children@));
                        assert(decreases_to!(self->children@ => self->children@[i as int]));
                        lemma_trees_panels_split(vs, i as int);
                        lemma_trees_panels_prefix(vs, i as int);
                        lemma_tab_location_concat(
                            trees_panels(vs.subrange(0, i as int)),
                            tree_panels(vs[i as int]),
                            *tab,
                        );
                        lemma_tab_location_concat(
                            trees_panels(vs.subrange(0, i as int)) + tree_panels(vs[i as int]),
                            trees_panels(vs.subrange(i + 1, vs.len() as int)),
                            *tab,
                        );
                    }
                    match children[i].find_tab(tab) {
                        Some(found) => {
                            return Some(found);
                        },
                        None => {},
                    }
                    i += 1;
                }
                proof {
                    assert(vs.subrange(0, vs.len() as int) =~= vs);
                }
                None
            },
        }
    }
}

/// `remove_tab_except` on a node taken by value.
fn remove_tab_except_owned<TabId: Copy + PartialEq, PanelId: Copy + PartialEq>(
    node: DockNode<TabId, PanelId>,
    tab: &TabId,
    except_panel: Option<&PanelId>,
) -> (r: (DockNode<TabId, PanelId>, bool))
    requires
        ids_obey_eq::<TabId, PanelId>(),
    ensures
        (r.0@, r.1) == tree_remove_tab_except(node@, *tab, opt_deref(except_panel)),
    decreases node,
{
    let ghost node0 = node;
    match node {
        DockNode::Panel(panel) => {
            let mut panel = panel;
            proof {
                reveal(obeys_concrete_eq);
                reveal_with_fuel(first_match, 2);
                lemma_contains_first_index(panel.tabs@, *tab);
            }
            let excluded = match except_panel {
                Some(e) => *e == panel.panel_id,
                None => false,
            };
            if excluded {
                return (DockNode::Panel(panel), false);
            }
            let position = match position_of(&panel.tabs, tab) {
                Some(position) => position,
                None => {
                    return (DockNode::Panel(panel), false);
                },
            };
            panel.tabs.remove(position);
            let was_active = match panel.active_tab_id {
                Some(active) => active == *tab,
                None => false,
            };
            if was_active {
                panel.active_tab_id = if panel.tabs.len() > 0 { Some(panel.tabs[0]) } else { None };
            }
            (DockNode::Panel(panel), true)
        },
        DockNode::Split { direction, children } => {
            let ghost c0 = children;
            let ghost vs = nodes_view(children@);
            let ghost ex = opt_deref(except_panel);
            proof {
                lemma_nodes_view(children@);
                assert(vs.subrange(0, 0) =~= Seq::<DockTree<TabId, PanelId>>::empty());
                assert(vs.subrange(0, vs.len() as int) =~= vs);
                assert(nodes_view(children@) =~= Seq::<DockTree<TabId, PanelId>>::empty() + vs.subrange(0, vs.len() as int));
            }
            let mut children = children;
            let mut found = false;
            let mut i: usize = 0;
            while i < children.len()
                invariant
                    0 <= i <= children.len(),
                    ids_obey_eq::<TabId, PanelId>(),
                    ex == opt_deref(except_panel),
                    node0 == (DockNode::Split { direction, children: c0 }),
                    node == node0,
                    vs == nodes_view(c0@),
                    vs.len() == c0@.len(),
                    children@.len() == c0@.len(),
                    forall|j: int| 0 <= j < vs.len() ==> #[trigger] vs[j] == node_view(c0@[j]),
                    forall|j: int| i <= j < c0@.len() ==> #[trigger] children@[j] == c0@[j],
                    nodes_view(children@) == trees_remove_tab_except(vs.subrange(0, i as int), *tab, ex).0
                        + vs.subrange(i as int, vs.len() as int),
                    found == trees_remove_tab_except(vs.subrange(0, i as int), *tab, ex).1,
                decreases children.len() - i,
            {
                let ghost pre_swap = children@;
                let mut child = placeholder();
                std::mem::swap(&mut child, &mut children[i]);
                proof {
                    assert(child == c0@[i as int]);
                    assert(decreases_to!(node0 => node0->children));
                    assert(decreases_to!(node0->children => node0->children@));
                    assert(decreases_to!(node0->children@ => node0->children@[i as int]));
                    assert(decreases_to!(node => child));
                }
                let (new_child, removed) = remove_tab_except_owned(child, tab, except_panel);
                children.set(i, new_child);
                found = found || removed;
                proof {
                    let prefix = vs.subrange(0, i as int);
                    let next = vs.subrange(0, i + 1);
                    assert(next.subrange(0, i as int) =~= prefix);
                    assert(next[i as int] == vs[i as int]);
                    lemma_trees_remove_len(prefix, *tab, ex);
                    assert(children@ == pre_swap.update(i as int, new_child));
                    lemma_nodes_view_update(pre_swap, i as int, new_child);
                    let done = trees_remove_tab_except(prefix, *tab, ex).0;
                    let h = tree_remove_tab_except(vs[i as int], *tab, ex);
                    assert(node_view(child) == vs[i as int]);
                    assert(node_view(new_child) == h.0);
                    assert(trees_remove_tab_except(next, *tab, ex).0 == done.push(h.0));
                    assert(nodes_view(pre_swap) == done + vs.subrange(i as int, vs.len() as int));
                    assert(nodes_view(children@) =~= trees_remove_tab_except(next, *tab, ex).0
                        + vs.subrange(i + 1, vs.len() as int));
                }
                i += 1;
            }
            proof {
                assert(vs.subrange(0, vs.len() as int) =~= vs);
                lemma_trees_remove_len(vs, *tab, ex);
                assert(nodes_view(children@) =~= trees_remove_tab_except(vs, *tab, ex).0);
            }
            (DockNode::Split { direction, children }, found)
        },
    }
}

/// `split_panel` on a node taken by value.
fn split_panel_owned<TabId: Copy + PartialEq, PanelId: Copy + PartialEq>(
    node: DockNode<TabId, PanelId>,
    panel_id: &PanelId,
    side: Side,
    new_panel: &DockPanel<TabId, PanelId>,
) -> (r: (DockNode<TabId, PanelId>, bool))
    requires
        ids_obey_eq::<TabId, PanelId>(),
    ensures
        (r.0@, r.1) == tree_split_panel(node@, *panel_id, side, new_panel@),
    decreases node,
{
    let ghost f = has_id::<TabId, PanelId>(*panel_id);
    let ghost node0 = node;
    match node {
        DockNode::Panel(panel) => {
            proof {
                reveal(obeys_concrete_eq);
                reveal_with_fuel(first_match, 2);
            }
            if panel.panel_id == *panel_id {
                let new_node = DockNode::Panel(new_panel.clone());
                let old_node = DockNode::Panel(panel);
                let children = match side {
                    Side::Left | Side::Top => vec![new_node, old_node],
                    Side::Right | Side::Bottom => vec![old_node, new_node],
                };
                proof {
                    reveal_with_fuel(nodes_view, 3);
                    assert(nodes_view(children@) =~= split_node(node0->Panel_0@, side, new_panel@)->children);
                }
                (DockNode::Split { direction: side.direction(), children }, true)
            } else {
                (DockNode::Panel(panel), false)
            }
        },
        DockNode::Split { direction, children } => {
            let ghost c0 = children;
            let ghost vs = nodes_view(children@);
            proof {
                lemma_nodes_view(children@);
            }
            let mut children = children;
            let mut i: usize = 0;
            while i < children.len()
                invariant
                    0 <= i <= children.len(),
                    ids_obey_eq::<TabId, PanelId>(),
                    f == has_id::<TabId, PanelId>(*panel_id),
                    node0 == (DockNode::Split { direction, children: c0 }),
                    node == node0,
                    vs == nodes_view(c0@),
                    vs.len() == c0@.len(),
                    nodes_view(children@) == vs,
                    children@.len() == c0@.len(),
                    forall|j: int| 0 <= j < vs.len() ==> #[trigger] vs[j] == node_view(c0@[j]),
                    forall|j: int| i <= j < c0@.len() ==> #[trigger] children@[j] == c0@[j],
                    first_match(trees_panels(vs.subrange(0, i as int)), f) is None,
                decreases children.len() - i,
            {
                let ghost pre_swap = children@;
                let mut child = placeholder();
                std::mem::swap(&mut child, &mut children[i]);
                proof {
                    assert(child == c0@[i as int]);
                    assert(decreases_to!(node0 => node0->children));
                    assert(decreases_to!(node0->children => node0->children@));
                    assert(decreases_to!(node0->children@ => node0->children@[i as int]));
                    assert(decreases_to!(node => child));
                }
                let (new_child, found) = split_panel_owned(child, panel_id, side, new_panel);
                children.set(i, new_child);
                proof {
                    assert(children@ == pre_swap.update(i as int, new_child));
                    lemma_nodes_view_update(pre_swap, i as int, new_child);
                    lemma_nodes_view(pre_swap);
                    assert(vs[i as int] == node_view(child));
                }
                if found {
                    proof {
                        let kc = first_match(tree_panels(vs[i as int]), f).unwrap();
                        lemma_first_match(tree_panels(vs[i as int]), f);
                        lemma_first_match_in_child(vs, i as int, f);
                        let x = split_node(tree_panels(vs[i as int])[kc], side, new_panel@);
                        lemma_replace_in_child(vs, i as int, kc, x);
                        lemma_trees_panels_split(vs, i as int);
                        let pre = trees_panels(vs.subrange(0, i as int));
                        assert(trees_panels(vs)[pre.len() + kc] == tree_panels(vs[i as int])[kc]);
                        assert(nodes_view(children@) =~= vs.update(i as int, node_view(new_child)));
                        assert(node0@ == DockTree::Split { direction, children: vs });
                        assert(tree_panels(node0@) == trees_panels(vs));
                    }
                    return (DockNode::Split { direction, children }, true);
                }
                proof {
                    lemma_first_match_prefix_none(vs, i as int, f);
                    assert(nodes_view(children@) =~= vs);
                }
                i += 1;
            }
            proof {
                assert(vs.subrange(0, vs.len() as int) =~= vs);
            }
            (DockNode::Split { direction, children }, false)
        },
    }
}

/// `close_empty_panels` on a node taken by value.
fn close_empty_owned<TabId: Copy + PartialEq, PanelId: Copy + PartialEq>(
    node: DockNode<TabId, PanelId>,
) -> (r: DockNode<TabId, PanelId>)
    ensures
        r@ == tree_close_empty(node@),
    decreases node,
{
    let ghost node0 = node;
    match node {
        DockNode::Panel(panel) => DockNode::Panel(panel),
        DockNode::Split { direction, children } => {
            let ghost c0 = children;
            let ghost vs = nodes_view(children@);
            proof {
                lemma_nodes_view(children@);
            }
            let mut children = children;
            let mut kept: Vec<DockNode<TabId, PanelId>> = Vec::new();
            let mut i: usize = 0;
            while i < children.len()
                invariant
                    0 <= i <= children.len(),
                    node0 == (DockNode::Split { direction, children: c0 }),
                    node == node0,
                    vs == nodes_view(c0@),
                    vs.len() == c0@.len(),
                    children@.len() == c0@.len(),
                    forall|j: int| 0 <= j < vs.len() ==> #[trigger] vs[j] == node_view(c0@[j]),
                    forall|j: int| i <= j < c0@.len() ==> #[trigger] children@[j] == c0@[j],
                    nodes_view(kept@) == close_trees(vs.subrange(0, i as int)),
                decreases children.len() - i,
            {
                let mut child = placeholder();
                std::mem::swap(&mut child, &mut children[i]);
                proof {
                    assert(child == c0@[i as int]);
                    assert(decreases_to!(node0 => node0->children));
                    assert(decreases_to!(node0->children => node0->children@));
                    assert(decreases_to!(node0->children@ => node0->children@[i as int]));
                    assert(decreases_to!(node => child));
                }
                let cleaned = close_empty_owned(child);
                let ghost kept_before = kept@;
                proof {
                    let s = vs.subrange(0, i + 1);
                    assert(s.subrange(0, s.len() - 1) =~= vs.subrange(0, i as int));
                    assert(s[s.len() - 1] == vs[i as int]);
                    assert(vs[i as int] == node_view(child));
                    lemma_nodes_view(kept@);
                }
                if !cleaned.is_empty() {
                    kept.push(cleaned);
                    proof {
                        lemma_nodes_view(kept@);
                        assert(nodes_view(kept@) =~= nodes_view(kept_before).push(node_view(cleaned)));
                    }
                }
                i += 1;
            }
            proof {
                assert(vs.subrange(0, vs.len() as int) =~= vs);
                lemma_nodes_view(kept@);
            }
            if kept.len() == 1 {
                kept.remove(0)
            } else {
                DockNode::Split { direction, children: kept }
            }
        },
    }
}

impl<TabId: Copy + PartialEq, PanelId: Copy + PartialEq> DockNode<TabId, PanelId> {
    /// Removes `tab` from every panel except `except_panel`. Returns whether a tab was removed.
    pub fn remove_tab_except(&mut self, tab: &TabId, except_panel: Option<&PanelId>) -> (r: bool)
        requires
            ids_obey_eq::<TabId, PanelId>(),
        ensures
            (final(self)@, r) == tree_remove_tab_except(old(self)@, *tab, opt_deref(except_panel)),
    {
        let mut node = placeholder();
        std::mem::swap(self, &mut node);
        let (new_node, removed) = remove_tab_except_owned(node, tab, except_panel);
        *self = new_node;
        removed
    }

    /// Turns the first panel, left to right, with id `panel_id` into a split holding it and a
    /// copy of `new_panel` on `side`. Returns whether such a panel was found.
    pub fn split_panel(
        &mut self,
        panel_id: &PanelId,
        side: Side,
        new_panel: &DockPanel<TabId, PanelId>,
    ) -> (r: bool)
        requires
            ids_obey_eq::<TabId, PanelId>(),
        ensures
            (final(self)@, r) == tree_split_panel(old(self)@, *panel_id, side, new_panel@),
    {
        let mut node = placeholder();
        std::mem::swap(self, &mut node);
        let (new_node, split) = split_panel_owned(node, panel_id, side, new_panel);
        *self = new_node;
        split
    }

    /// Removes empty panels and empty splits, and replaces each split left with a single
    /// child by that child.
    pub fn close_empty_panels(&mut self)
        ensures
            final(self)@ == tree_close_empty(old(self)@),
    {
        let mut node = placeholder();
        std::mem::swap(self, &mut node);
        *self = close_empty_owned(node);
    }

    /// The children of a split, to be changed in place.
    fn children_mut(&mut self) -> (r: Option<&mut Vec<DockNode<TabId, PanelId>>>)
        ensures
            match r {
                Some(c) => {
                    &&& *old(self) is Split
                    &&& *c == old(self)->children
                    &&& *final(self) == (DockNode::Split {
                        direction: old(self)->direction,
                        children: *final(c),
                    })
                    &&& final(self)@ == (DockTree::Split {
                        direction: old(self)->direction,
                        children: nodes_view(final(c)@),
                    })
                    &&& old(self)@ == (DockTree::Split {
                        direction: old(self)->direction,
                        children: nodes_view(c@),
                    })
                },
                None => *old(self) is Panel && *final(self) == *old(self),
            },
    {
        match self {
            DockNode::Split { children, .. } => Some(children),
            DockNode::Panel(_) => None,
        }
    }

    /// The `i`-th child of a split, to be changed in place.
    fn child_mut(&mut self, i: usize) -> (r: &mut DockNode<TabId, PanelId>)
        requires
            *old(self) is Split,
            i < old(self)->children@.len(),
        ensures
            *r == old(self)->children@[i as int],
            *final(self) == (DockNode::Split {
                direction: old(self)->direction,
                children: final(self)->children,
            }),
            final(self)->children@ == old(self)->children@.update(i as int, *final(r)),
            final(self)@ == (DockTree::Split {
                direction: old(self)->direction,
                children: nodes_view(old(self)->children@).update(i as int, (*final(r))@),
            }),
    {
        proof {
            let cs = self->children@;
            assert forall|x: DockNode<TabId, PanelId>|
                #[trigger] nodes_view(cs.update(i as int, x)) == nodes_view(cs).update(
                    i as int,
                    node_view(x),
                ) by {
                lemma_nodes_view_update(cs, i as int, x);
            }
        }
        let c = self.children_mut().unwrap();
        &mut c[i]
    }

    /// The `i`-th child of a split, to be changed in place; whatever panel `kc` of the child
    /// becomes is panel `k` of this node.
    fn child_mut_at(&mut self, i: usize, Ghost(kc): Ghost<int>, Ghost(k): Ghost<int>) -> (r: &mut DockNode<
        TabId,
        PanelId,
    >)
        requires
            *old(self) is Split,
            i < old(self)->children@.len(),
            0 <= kc < tree_panels(old(self)->children@[i as int]@).len(),
            k == trees_panels(nodes_view(old(self)->children@).subrange(0, i as int)).len() + kc,
        ensures
            *r == old(self)->children@[i as int],
            forall|x: DockTree<TabId, PanelId>|
                (*final(r))@ == replace_panel((*r)@, kc, x) ==> #[trigger] replace_panel(old(self)@, k, x)
                    == final(self)@,
    {
        let ghost cs = self->children@;
        let ghost vs = nodes_view(cs);
        proof {
            lemma_nodes_view(cs);
            assert forall|x: DockTree<TabId, PanelId>|
                #[trigger] replace_in_trees(vs, k, x) == vs.update(
                    i as int,
                    replace_panel(vs[i as int], kc, x),
                ) by {
                lemma_replace_in_child(vs, i as int, kc, x);
            }
            assert(old(self)@ == DockTree::Split { direction: self->direction, children: vs });
            assert(cs[i as int]@ == vs[i as int]);
            assert forall|x: DockTree<TabId, PanelId>|
                #[trigger] replace_panel(old(self)@, k, x) == (DockTree::Split {
                    direction: self->direction,
                    children: vs.update(i as int, replace_panel(vs[i as int], kc, x)),
                }) by {
                assert(replace_in_trees(vs, k, x) == vs.update(
                    i as int,
                    replace_panel(vs[i as int], kc, x),
                ));
            }
        }
        self.child_mut(i)
    }

    /// The panel of a panel node, to be changed in place.
    fn panel_of_mut(&mut self) -> (r: Option<&mut DockPanel<TabId, PanelId>>)
        ensures
            match r {
                Some(p) => {
                    &&& *old(self) is Panel
                    &&& *p == old(self)->Panel_0
                    &&& *final(self) == DockNode::Panel(*final(p))
                },
                None => *old(self) is Split && *final(self) == *old(self),
            },
    {
        match self {
            DockNode::Panel(panel) => Some(panel),
            DockNode::Split { .. } => None,
        }
    }

    /// Mutable version of [`DockNode::first_panel`]: what is written through the returned
    /// reference lands in the first panel of the tree.
    pub fn first_panel_mut(&mut self) -> (r: Option<&mut DockPanel<TabId, PanelId>>)
        ensures
            match r {
                Some(p) => {
                    &&& tree_panels(old(self)@).len() > 0
                    &&& (*p)@ == tree_panels(old(self)@)[0]
                    &&& final(self)@ == replace_panel(old(self)@, 0, DockTree::Panel((*final(p))@))
                },
                None => {
                    &&& tree_panels(old(self)@).len() == 0
                    &&& final(self)@ == old(self)@
                },
            },
        decreases *old(self),
    {
        let ghost old_node = *self;
        let is_split = match self {
            DockNode::Split { .. } => true,
            DockNode::Panel(_) => false,
        };
        if !is_split {
            let panel = self.panel_of_mut().unwrap();
            proof {
                assert(tree_panels(old_node@) == seq![panel@]);
            }
            return Some(panel);
        }
        let children: &Vec<DockNode<TabId, PanelId>> = match self {
            DockNode::Split { children, .. } => children,
            DockNode::Panel(_) => {
                return None;
            },
        };
        let ghost vs = nodes_view(children@);
        proof {
            lemma_nodes_view(children@);
        }
        let mut i: usize = 0;
        let mut found = false;
        while i < children.len() && !found
            invariant
                0 <= i <= children.len(),
                vs == nodes_view(children@),
                vs.len() == children@.len(),
                forall|j: int| 0 <= j < vs.len() ==> #[trigger] vs[j] == node_view(children@[j]),
                trees_panels(vs.subrange(0, i as int)).len() == 0,
                found ==> i < children.len() && tree_panels(vs[i as int]).len() > 0,
            decreases children.len() - i + (if found { 0int } else { 1int }),
        {
            let here = children[i].first_panel().is_some();
            proof {
                lemma_trees_panels_prefix(vs, i as int);
            }
            if here {
                found = true;
            } else {
                i += 1;
            }
        }
        if !found {
            proof {
                assert(vs.subrange(0, vs.len() as int) =~= vs);
            }
            return None;
        }
        proof {
            assert(decreases_to!(old_node => old_node->children));
            assert(decreases_to!(old_node->children => old_node->children@));
            assert(decreases_to!(old_node->children@ => old_node->children@[i as int]));
            lemma_trees_panels_split(vs, i as int);
            assert(trees_panels(vs)[0] == tree_panels(vs[i as int])[0]);
        }
        let child = self.child_mut_at(i, Ghost(0int), Ghost(0int));
        DockNode::first_panel_mut(child)
    }

    /// Mutable version of [`DockNode::panel`]: what is written through the returned reference
    /// lands in that panel of the tree.
    pub fn panel_mut(&mut self, id: &PanelId) -> (r: Option<&mut DockPanel<TabId, PanelId>>)
        requires
            ids_obey_eq::<TabId, PanelId>(),
        ensures
            match r {
                Some(p) => {
                    let k = first_match(tree_panels(old(self)@), has_id(*id)).unwrap();
                    &&& first_match(tree_panels(old(self)@), has_id(*id)) is Some
                    &&& (*p)@ == tree_panels(old(self)@)[k]
                    &&& final(self)@ == replace_panel(old(self)@, k, DockTree::Panel((*final(p))@))
                },
                None => {
                    &&& first_match(tree_panels(old(self)@), has_id(*id)) is None
                    &&& final(self)@ == old(self)@
                },
            },
        decreases *old(self),
    {
        let ghost f = has_id::<TabId, PanelId>(*id);
        let ghost old_node = *self;
        let is_split = match self {
            DockNode::Split { .. } => true,
            DockNode::Panel(_) => false,
        };
        if !is_split {
            let panel = self.panel_of_mut().unwrap();
            proof {
                reveal(obeys_concrete_eq);
                reveal_with_fuel(first_match, 2);
            }
            if panel.panel_id == *id {
                proof {
                    assert(tree_panels(old_node@) == seq![panel@]);
                    assert(seq![panel@][0] == panel@);
                    assert(first_match(seq![panel@], f) == Some(0int));
                }
                return Some(panel);
            } else {
                return None;
            }
        }
        let children: &Vec<DockNode<TabId, PanelId>> = match self {
            DockNode::Split { children, .. } => children,
            DockNode::Panel(_) => {
                return None;
            },
        };
        let ghost vs = nodes_view(children@);
        proof {
            lemma_nodes_view(children@);
        }
        let mut i: usize = 0;
        let mut found = false;
        while i < children.len() && !found
            invariant
                0 <= i <= children.len(),
                ids_obey_eq::<TabId, PanelId>(),
                f == has_id::<TabId, PanelId>(*id),
                vs == nodes_view(children@),
                vs.len() == children@.len(),
                forall|j: int| 0 <= j < vs.len() ==> #[trigger] vs[j] == node_view(children@[j]),
                first_match(trees_panels(vs.subrange(0, i as int)), f) is None,
                found ==> i < children.len() && first_match(tree_panels(vs[i as int]), f) is Some,
            decreases children.len() - i + (if found { 0int } else { 1int }),
        {
            let here = children[i].panel(id).is_some();
            proof {
                lemma_first_match(tree_panels(vs[i as int]), f);
                if let Some(k) = first_match(tree_panels(vs[i as int]), f) {
                    assert(tree_panels(vs[i as int])[k].panel_id == *id);
                }
                if !here {
                    lemma_first_match_prefix_none(vs, i as int, f);
                }
            }
            if here {
                found = true;
            } else {
                i += 1;
            }
        }
        if !found {
            proof {
                assert(vs.subrange(0, vs.len() as int) =~= vs);
            }
            return None;
        }
        proof {
            assert(decreases_to!(old_node => old_node->children));
            assert(decreases_to!(old_node->children => old_node->children@));
            assert(decreases_to!(old_node->children@ => old_node->children@[i as int]));
            lemma_first_match_in_child(vs, i as int, f);
            lemma_trees_panels_split(vs, i as int);
            let kc = first_match(tree_panels(vs[i as int]), f).unwrap();
            let pre = trees_panels(vs.subrange(0, i as int));
            lemma_first_match(tree_panels(vs[i as int]), f);
            assert(trees_panels(vs)[pre.len() + kc] == tree_panels(vs[i as int])[kc]);
        }
        let ghost kc = first_match(tree_panels(vs[i as int]), f).unwrap();
        let ghost k = trees_panels(vs.subrange(0, i as int)).len() + kc;
        let child = self.child_mut_at(i, Ghost(kc), Ghost(k));
        DockNode::panel_mut(child, id)
    }
}

impl<TabId: Copy, PanelId: Copy> Clone for DockPanel<TabId, PanelId> {
    fn clone(&self) -> (r: Self)
        ensures
            r@ == self@,
    {
        DockPanel {
            panel_id: self.panel_id,
            tabs: copy_vec(&self.tabs),
            active_tab_id: self.active_tab_id,
        }
    }
}

/// A copy of a node and everything under it.
fn copy_node<TabId: Copy, PanelId: Copy>(node: &DockNode<TabId, PanelId>) -> (r: DockNode<TabId, PanelId>)
    ensures
        r@ == node@,
    decreases node,
{
    match node {
        DockNode::Panel(panel) => DockNode::Panel(panel.clone()),
        DockNode::Split { direction, children } => {
            let mut copied: Vec<DockNode<TabId, PanelId>> = Vec::new();
            let mut i: usize = 0;
            proof {
                lemma_nodes_view(children@);
            }
            while i < children.len()
                invariant
                    0 <= i <= children.len(),
                    *node == (DockNode::Split { direction: *direction, children: *children }),
                    copied@.len() == i,
                    forall|j: int| 0 <= j < i ==> node_view(#[trigger] copied@[j]) == node_view(children@[j]),
                decreases children.len() - i,
            {
                proof {
                    assert(decreases_to!(*node => node->children));
                    assert(decreases_to!(node->children => node->children@));
                    assert(decreases_to!(node->children@ => node->children@[i as int]));
                }
                copied.push(copy_node(&children[i]));
                i += 1;
            }
            proof {
                lemma_nodes_view(copied@);
                lemma_nodes_view(children@);
                assert(nodes_view(copied@) =~= nodes_view(children@));
            }
            DockNode::Split { direction: *direction, children: copied }
        },
    }
}

impl<TabId: Copy, PanelId: Copy> Clone for DockNode<TabId, PanelId> {
    fn clone(&self) -> (r: Self)
        ensures
            r@ == self@,
    {
        copy_node(self)
    }
}

/// Describes where a dragged tab should be dropped.
#[derive(Clone, Copy, Debug, PartialEq)]
pub enum DropTarget<PanelId> {
    Tab { panel_id: PanelId, position: usize },
    Center(PanelId),
    Split { panel_id: PanelId, side: Side },
}

/// The payload carried by a drag in a docking area.
#[derive(Clone, Debug, PartialEq)]
pub struct DockDrag<Value> {
    pub value: Value,
}

impl<Value> DockDrag<Value> {
    /// Wraps a value to be dragged onto a docking area.
    pub fn new(value: Value) -> (r: Self)
        ensures
            r.value == value,
    {
        DockDrag { value }
    }
}

/// What the content of a panel is rendered from.
#[derive(Clone, Debug, PartialEq)]
pub struct ContentContext<TabId, PanelId> {
    /// The id of the panel this content belongs to.
    pub panel_id: PanelId,
    /// The panel's active tab, or `None` when the panel has no tabs.
    pub tab_id: Option<TabId>,
    /// Number of tabs open in the panel.
    pub tab_count: usize,
}

/// What a tab header is rendered from.
#[derive(Clone, Debug, PartialEq)]
pub struct TabContext<TabId> {
    pub tab_id: TabId,
    /// True when a drag is going on and the cursor is over this tab.
    pub is_drop_target: bool,
}

impl<TabId: Copy, PanelId: Copy> DockPanel<TabId, PanelId> {
    /// What the content of this panel is rendered from.
    pub fn content_context(&self) -> (r: ContentContext<TabId, PanelId>)
        ensures
            r.panel_id == self.panel_id,
            r.tab_id == self.active_tab_id,
            r.tab_count == self.tabs@.len(),
    {
        ContentContext {
            panel_id: self.panel_id,
            tab_id: self.active_tab_id,
            tab_count: self.tabs.len(),
        }
    }
}

/// The drop target under the cursor during a drag over a panel.
#[derive(Clone, Copy, Debug, PartialEq, Eq)]
pub enum HoverTarget<TabId> {
    Tab(TabId),
    Edge(Side),
    Center,
}

/// The hover target after the cursor enters (`hovering`) or leaves `target`: entering makes
/// it the target; leaving clears it only if it still is the target.
pub open spec fn hover_after<T>(hover: Option<HoverTarget<T>>, target: HoverTarget<T>, hovering: bool) -> Option<
    HoverTarget<T>,
> {
    if hovering {
        Some(target)
    } else if hover == Some(target) {
        None
    } else {
        hover
    }
}

/// Whether two hover targets are the same.
fn same_target<TabId: Copy + PartialEq>(a: HoverTarget<TabId>, b: HoverTarget<TabId>) -> (r: bool)
    requires
        obeys_concrete_eq::<TabId>(),
    ensures
        r == (a == b),
{
    proof {
        reveal(obeys_concrete_eq);
    }
    match (a, b) {
        (HoverTarget::Tab(x), HoverTarget::Tab(y)) => x == y,
        (HoverTarget::Edge(x), HoverTarget::Edge(y)) => x == y,
        (HoverTarget::Center, HoverTarget::Center) => true,
        _ => false,
    }
}

/// Sets the hover target when the cursor enters `target`, or clears it when the cursor leaves
/// `target` and it still points there.
pub fn toggle_hover<TabId: Copy + PartialEq>(
    hover: &mut Option<HoverTarget<TabId>>,
    target: HoverTarget<TabId>,
    hovering: bool,
)
    requires
        obeys_concrete_eq::<TabId>(),
    ensures
        *final(hover) == hover_after(*old(hover), target, hovering),
{
    if hovering {
        *hover = Some(target);
    } else if let Some(current) = *hover {
        if same_target(current, target) {
            *hover = None;
        }
    }
}

/// The tab headers of a panel while `hovered` is the drop target under the cursor (none when
/// nothing is being dragged): one per tab, in order, marked when the cursor is over it.
pub fn tab_contexts<TabId: Copy + PartialEq>(tabs: &Vec<TabId>, hovered: Option<HoverTarget<TabId>>) -> (r: Vec<
    TabContext<TabId>,
>)
    requires
        obeys_concrete_eq::<TabId>(),
    ensures
        r@.len() == tabs@.len(),
        forall|i: int|
            0 <= i < tabs@.len() ==> #[trigger] r@[i] == (TabContext {
                tab_id: tabs@[i],
                is_drop_target: hovered == Some(HoverTarget::Tab(tabs@[i])),
            }),
{
    let mut r: Vec<TabContext<TabId>> = Vec::new();
    let mut i: usize = 0;
    while i < tabs.len()
        invariant
            obeys_concrete_eq::<TabId>(),
            i <= tabs@.len(),
            r@.len() == i,
            forall|k: int|
                0 <= k < i ==> #[trigger] r@[k] == (TabContext {
                    tab_id: tabs@[k],
                    is_drop_target: hovered == Some(HoverTarget::Tab(tabs@[k])),
                }),
        decreases tabs@.len() - i,
    {
        let tab_id = tabs[i];
        let is_drop_target = match hovered {
            Some(h) => same_target(h, HoverTarget::Tab(tab_id)),
            None => false,
        };
        r.push(TabContext { tab_id, is_drop_target });
        i = i + 1;
    }
    r
}

/// Where the preview of a drop is drawn over a panel.
#[derive(Clone, Copy, Debug, PartialEq, Eq, Structural)]
pub enum PreviewArea {
    /// The half of the panel on this side.
    Half(Side),
    /// The whole panel.
    Whole,
}

/// Where the drop preview goes for the hovered target: the half on the hovered edge's side,
/// the whole panel for its center, nowhere over a tab or when there is no preview to draw.
pub fn preview_area<TabId>(hover: Option<HoverTarget<TabId>>, has_preview: bool) -> (r: Option<PreviewArea>)
    ensures
        r == match hover {
            Some(HoverTarget::Edge(side)) => if has_preview {
                Some(PreviewArea::Half(side))
            } else {
                None
            },
            Some(HoverTarget::Center) => if has_preview {
                Some(PreviewArea::Whole)
            } else {
                None
            },
            _ => None,
        },
{
    if !has_preview {
        return None;
    }
    match hover {
        Some(HoverTarget::Edge(side)) => Some(PreviewArea::Half(side)),
        Some(HoverTarget::Center) => Some(PreviewArea::Whole),
        _ => None,
    }
}

} // verus!
