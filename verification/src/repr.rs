//! The representation tree: a typed, mutable tree of data
//! representations.
//!
//! Every node carries one flat rung of a type ladder (`type_tag`), the
//! ladder of its ancestors (`halo`), child representations keyed by
//! their own flat type, and at most one data-bearing leaf.  Projections
//! wired by morphisms are kept as [`Edge`]s on the node the morphism
//! was applied to: each edge says that the leaf at `dst_path` follows
//! the value at `src_path` through a [`Transform`].

use vstd::prelude::*;
use crate::term::{TypeTerm, TermModel, lnf_model, lnf_concat, unit_model, is_flat_model,
    normalize_model, lemma_seq_model};
use crate::value::{LeafValue, ValueModel};
use crate::transform::{Transform, spec_apply_transform};

verus! {

broadcast use vstd::std_specs::vec::group_vec_axioms;

/// The data-bearing end of a representation path.  `data` is the
/// locally owned buffer; a leaf without one is a pure pass-through of
/// the projection wired to it.
#[derive(Debug)]
pub struct ReprLeaf {
    pub data: Option<LeafValue>,
}

/// A wired projection: the leaf at `dst_path` follows the value read at
/// `src_path` through `transform`.  Both paths are ladders of flat
/// rungs, relative to the node that owns the edge.
#[derive(Debug)]
pub struct Edge {
    pub src_path: Vec<TypeTerm>,
    pub dst_path: Vec<TypeTerm>,
    pub transform: Transform,
}

/// One node of a representation tree.
#[derive(Debug)]
pub struct ReprTree {
    pub halo: TypeTerm,
    pub type_tag: TypeTerm,
    pub branches: Vec<ReprTree>,
    pub leaf: Option<ReprLeaf>,
    pub edges: Vec<Edge>,
}

/// The model of a leaf.
pub struct LeafModel {
    pub data: Option<ValueModel>,
}

/// The model of an edge.
#[verifier::ext_equal]
pub struct EdgeModel {
    pub src: Seq<TermModel>,
    pub dst: Seq<TermModel>,
    pub transform: Transform,
}

/// The model of a tree node.
#[verifier::ext_equal]
pub struct TreeModel {
    pub halo: TermModel,
    pub tag: TermModel,
    pub branches: Seq<TreeModel>,
    pub leaf: Option<LeafModel>,
    pub edges: Seq<EdgeModel>,
}

/// The model of a leaf: its optional buffer value.
pub open spec fn leaf_model(l: ReprLeaf) -> LeafModel {
    LeafModel {
        data: match l.data {
            Some(v) => Some(v@),
            None => None,
        },
    }
}

/// The model of an edge: its paths as rung sequences.
pub open spec fn edge_model(e: Edge) -> EdgeModel {
    EdgeModel { src: crate::term::seq_model(e.src_path@), dst: crate::term::seq_model(e.dst_path@), transform: e.transform }
}

/// The models of an edge vector, elementwise.
pub open spec fn edges_model(s: Seq<Edge>) -> Seq<EdgeModel>
    decreases s,
{
    if s.len() == 0 {
        Seq::empty()
    } else {
        seq![edge_model(s[0])] + edges_model(s.subrange(1, s.len() as int))
    }
}

/// `edges_model` maps elementwise.
pub broadcast proof fn lemma_edges_model(s: Seq<Edge>)
    ensures
        (#[trigger] edges_model(s)).len() == s.len(),
        forall|i: int| 0 <= i < s.len() ==> edges_model(s)[i] == edge_model(s[i]),
    decreases s,
{
    if s.len() > 0 {
        lemma_edges_model(s.subrange(1, s.len() as int));
        assert forall|i: int| 0 <= i < s.len() implies edges_model(s)[i] == edge_model(s[i]) by {
            if i > 0 {
                assert(s.subrange(1, s.len() as int)[i - 1] == s[i]);
            }
        }
    }
}

/// The model of a tree node: the same tree over sequences.
pub open spec fn tree_model(t: ReprTree) -> TreeModel
    decreases t,
{
    TreeModel {
        halo: t.halo@,
        tag: t.type_tag@,
        branches: trees_model(t.branches@),
        leaf: match t.leaf {
            Some(l) => Some(leaf_model(l)),
            None => None,
        },
        edges: edges_model(t.edges@),
    }
}

/// The models of a branch vector, elementwise.
pub open spec fn trees_model(s: Seq<ReprTree>) -> Seq<TreeModel>
    decreases s,
{
    if s.len() == 0 {
        Seq::empty()
    } else {
        seq![tree_model(s[0])] + trees_model(s.subrange(1, s.len() as int))
    }
}

/// `trees_model` maps elementwise.
pub broadcast proof fn lemma_trees_model(s: Seq<ReprTree>)
    ensures
        (#[trigger] trees_model(s)).len() == s.len(),
        forall|i: int| 0 <= i < s.len() ==> trees_model(s)[i] == tree_model(s[i]),
    decreases s,
{
    if s.len() > 0 {
        lemma_trees_model(s.subrange(1, s.len() as int));
        assert forall|i: int| 0 <= i < s.len() implies trees_model(s)[i] == tree_model(s[i]) by {
            if i > 0 {
                assert(s.subrange(1, s.len() as int)[i - 1] == s[i]);
            }
        }
    }
}

impl View for ReprTree {
    type V = TreeModel;

    open spec fn view(&self) -> TreeModel {
        tree_model(*self)
    }
}

/// The first branch of `s` whose type tag is `tag`, from position `i`
/// on; `-1` when there is none.
pub open spec fn branch_idx_from(s: Seq<TreeModel>, tag: TermModel, i: int) -> int
    decreases s.len() - i,
{
    if i < 0 || i >= s.len() {
        -1
    } else if s[i].tag == tag {
        i
    } else {
        branch_idx_from(s, tag, i + 1)
    }
}

/// The index of the branch with type tag `tag`, or `-1`.
pub open spec fn branch_idx(m: TreeModel, tag: TermModel) -> int {
    branch_idx_from(m.branches, tag, 0)
}

/// The found index is in range and names the first matching branch.
pub proof fn lemma_branch_idx_from(s: Seq<TreeModel>, tag: TermModel, i: int)
    requires
        0 <= i <= s.len(),
    ensures
        branch_idx_from(s, tag, i) == -1 ==> forall|j: int|
            i <= j < s.len() ==> (#[trigger] s[j]).tag != tag,
        branch_idx_from(s, tag, i) != -1 ==> i <= branch_idx_from(s, tag, i) < s.len() && s[
            branch_idx_from(s, tag, i)
        ].tag == tag,
    decreases s.len() - i,
{
    if i < s.len() && s[i].tag != tag {
        lemma_branch_idx_from(s, tag, i + 1);
    }
}

/// Walking a ladder of rungs down the tree, starting at rung `i`.  A
/// rung equal to the current node's own tag is skipped; any other rung
/// must name an existing branch.  Returns the node reached, or `None`
/// as soon as a rung is missing.
pub open spec fn spec_descend(m: TreeModel, path: Seq<TermModel>, i: int) -> Option<TreeModel>
    decreases path.len() - i,
{
    if i < 0 || i >= path.len() {
        Some(m)
    } else if path[i] == m.tag {
        spec_descend(m, path, i + 1)
    } else {
        let bi = branch_idx(m, path[i]);
        if bi == -1 {
            None
        } else {
            spec_descend(m.branches[bi], path, i + 1)
        }
    }
}

/// The result of descending a whole (possibly nested) ladder term: the
/// ladder is first brought to normal form.
pub open spec fn spec_descend_term(m: TreeModel, ladder: TermModel) -> Option<TreeModel> {
    spec_descend(m, lnf_model(ladder), 0)
}

impl ReprTree {
    /// A fresh node of the given flat type: empty halo, no branches, no
    /// leaf, no wiring.
    pub fn new(type_tag: TypeTerm) -> (r: ReprTree)
        requires
            is_flat_model(type_tag@),
        ensures
            r@ == (TreeModel {
                halo: unit_model(),
                tag: type_tag@,
                branches: Seq::empty(),
                leaf: None,
                edges: Seq::empty(),
            }),
    {
        let r = ReprTree {
            halo: TypeTerm::unit(),
            type_tag,
            branches: Vec::new(),
            leaf: None,
            edges: Vec::new(),
        };
        proof {
            assert(trees_model(r.branches@) =~= Seq::<TreeModel>::empty());
            assert(edges_model(r.edges@) =~= Seq::<EdgeModel>::empty());
        }
        r
    }

    /// This node's own representation type.
    pub fn get_type(&self) -> (r: &TypeTerm)
        ensures
            r@ == self@.tag,
    {
        &self.type_tag
    }

    /// The ladder of ancestor types above this node.
    pub fn get_halo_type(&self) -> (r: &TypeTerm)
        ensures
            r@ == self@.halo,
    {
        &self.halo
    }

    /// The branch registered under the given flat type, if any.
    pub fn descend_one(&self, dst_type: &TypeTerm) -> (r: Option<&ReprTree>)
        ensures
            match r {
                Some(b) => branch_idx(self@, dst_type@) >= 0 && b@ == self@.branches[branch_idx(
                    self@,
                    dst_type@,
                )],
                None => branch_idx(self@, dst_type@) == -1,
            },
    {
        proof {
            lemma_trees_model(self.branches@);
        }
        let n: usize = self.branches.len();
        let mut i: usize = 0;
        while i < n
            invariant
                n == self.branches.len(),
                i <= n,
                self@.branches.len() == n,
                forall|j: int|
                    0 <= j < n ==> self@.branches[j] == tree_model(self.branches@[j]),
                branch_idx(self@, dst_type@) == branch_idx_from(
                    self@.branches,
                    dst_type@,
                    i as int,
                ),
            decreases n - i,
        {
            if self.branches[i].type_tag == *dst_type {
                return Some(&self.branches[i]);
            }
            i = i + 1;
        }
        None
    }

    /// Walks a ladder of flat rungs downward, rung by rung, starting at
    /// position `from`; never creates anything.
    pub fn descend_ladder(&self, rungs: &Vec<TypeTerm>, from: usize) -> (r: Option<&ReprTree>)
        requires
            from <= rungs@.len(),
        ensures
            match r {
                Some(node) => spec_descend(self@, crate::term::seq_model(rungs@), from as int)
                    == Some(node@),
                None => spec_descend(self@, crate::term::seq_model(rungs@), from as int) is None,
            },
        decreases rungs@.len() - from,
    {
        proof {
            lemma_seq_model(rungs@);
        }
        if from >= rungs.len() {
            return Some(self);
        }
        let rung = &rungs[from];
        if *rung == self.type_tag {
            return self.descend_ladder(rungs, from + 1);
        }
        match self.descend_one(rung) {
            Some(b) => b.descend_ladder(rungs, from + 1),
            None => None,
        }
    }

    /// Descends by a whole ladder term: the ladder is brought to normal
    /// form and walked rung by rung.  Returns `None` if any rung is
    /// missing; never creates branches.
    pub fn descend(&self, dst_type: &TypeTerm) -> (r: Option<&ReprTree>)
        ensures
            match r {
                Some(node) => spec_descend_term(self@, dst_type@) == Some(node@),
                None => spec_descend_term(self@, dst_type@) is None,
            },
    {
        let rungs = dst_type.get_lnf_vec();
        proof {
            crate::term::lemma_lnf_flat(dst_type@);
        }
        self.descend_ladder(&rungs, 0)
    }
}

/// The halo a child under a node with halo `h` and tag `tag` gets: the
/// parent's own full ladder, normalized.
pub open spec fn spec_child_halo(h: TermModel, tag: TermModel) -> TermModel {
    normalize_model(TermModel::Ladder(seq![h, tag]))
}

/// Setting a node's halo: the node takes `h`, and every branch
/// recursively takes the ladder `h ~ tag` of its parent.
pub open spec fn spec_set_halo(m: TreeModel, h: TermModel) -> TreeModel
    decreases m,
{
    TreeModel {
        halo: h,
        branches: spec_set_halo_seq(m.branches, spec_child_halo(h, m.tag)),
        ..m
    }
}

/// Setting the halo `h` on every tree of a sequence.
pub open spec fn spec_set_halo_seq(s: Seq<TreeModel>, h: TermModel) -> Seq<TreeModel>
    decreases s,
{
    if s.len() == 0 {
        Seq::empty()
    } else {
        seq![spec_set_halo(s[0], h)] + spec_set_halo_seq(s.subrange(1, s.len() as int), h)
    }
}

/// `spec_set_halo_seq` maps elementwise.
pub proof fn lemma_set_halo_seq(s: Seq<TreeModel>, h: TermModel)
    ensures
        (#[trigger] spec_set_halo_seq(s, h)).len() == s.len(),
        forall|i: int| 0 <= i < s.len() ==> spec_set_halo_seq(s, h)[i] == spec_set_halo(s[i], h),
    decreases s,
{
    if s.len() > 0 {
        lemma_set_halo_seq(s.subrange(1, s.len() as int), h);
        assert forall|i: int|
            0 <= i < s.len() implies spec_set_halo_seq(s, h)[i] == spec_set_halo(s[i], h) by {
            if i > 0 {
                assert(s.subrange(1, s.len() as int)[i - 1] == s[i]);
            }
        }
    }
}

/// Registering a child under a node: the child loses any wiring of its
/// own, takes the parent's ladder as its halo (recursively), and lands
/// in the slot of its type — replacing a branch of the same type, or
/// appended as a new one.
pub open spec fn spec_insert_branch(m: TreeModel, c: TreeModel) -> TreeModel {
    let c2 = spec_set_halo(TreeModel { edges: Seq::empty(), ..c }, spec_child_halo(m.halo, m.tag));
    let i = branch_idx(m, c.tag);
    TreeModel {
        branches: if i == -1 {
            m.branches.push(c2)
        } else {
            m.branches.update(i, c2)
        },
        ..m
    }
}

/// A fresh chain of nodes for the rungs `path[i..]`, with `leaf` at the
/// bottom; halos are still empty (they are set on insertion).
pub open spec fn spec_leaf_chain(path: Seq<TermModel>, i: int, leaf: Option<LeafModel>) -> TreeModel
    recommends
        0 <= i < path.len(),
    decreases path.len() - i,
{
    TreeModel {
        halo: unit_model(),
        tag: path[i],
        branches: if i + 1 < path.len() {
            seq![spec_leaf_chain(path, i + 1, leaf)]
        } else {
            Seq::empty()
        },
        leaf: if i + 1 < path.len() {
            None
        } else {
            leaf
        },
        edges: Seq::empty(),
    }
}

/// Installing `leaf` at the end of the ladder `path[i..]`, creating any
/// missing nodes on the way; rungs equal to the current tag are
/// skipped, existing branches are descended into, and a first missing
/// rung gets a whole fresh chain.
pub open spec fn spec_insert_leaf(
    m: TreeModel,
    path: Seq<TermModel>,
    i: int,
    leaf: Option<LeafModel>,
) -> TreeModel
    decreases path.len() - i,
{
    if i < 0 || i >= path.len() {
        TreeModel { leaf, ..m }
    } else if path[i] == m.tag {
        spec_insert_leaf(m, path, i + 1, leaf)
    } else {
        let bi = branch_idx(m, path[i]);
        if bi == -1 {
            spec_insert_branch(m, spec_leaf_chain(path, i, leaf))
        } else {
            TreeModel {
                branches: m.branches.update(bi, spec_insert_leaf(m.branches[bi], path, i + 1, leaf)),
                ..m
            }
        }
    }
}

/// Creating all missing nodes along a ladder, without any leaf: the
/// first rung's slot is (re)filled with a fresh chain.
pub open spec fn spec_create_branch(m: TreeModel, path: Seq<TermModel>) -> TreeModel {
    if path.len() == 0 {
        m
    } else {
        spec_insert_branch(m, spec_leaf_chain(path, 0, None))
    }
}

impl ReprTree {
    /// The position of the branch with the given type, if any.
    fn find_branch_index(&self, tag: &TypeTerm) -> (r: Option<usize>)
        ensures
            match r {
                Some(i) => i < self.branches@.len() && branch_idx(self@, tag@) == i as int,
                None => branch_idx(self@, tag@) == -1,
            },
    {
        proof {
            lemma_trees_model(self.branches@);
        }
        let n: usize = self.branches.len();
        let mut i: usize = 0;
        while i < n
            invariant
                n == self.branches.len(),
                i <= n,
                self@.branches.len() == n,
                forall|j: int| 0 <= j < n ==> self@.branches[j] == tree_model(self.branches@[j]),
                branch_idx(self@, tag@) == branch_idx_from(self@.branches, tag@, i as int),
            decreases n - i,
        {
            if self.branches[i].type_tag == *tag {
                return Some(i);
            }
            i = i + 1;
        }
        None
    }

    /// Sets this node's halo and recomputes every descendant's halo
    /// from its parent's ladder.
    #[verifier::loop_isolation(false)]
    pub fn set_halo(&mut self, halo_type: TypeTerm)
        ensures
            final(self)@ == spec_set_halo(old(self)@, halo_type@),
        decreases *old(self),
    {
        let pair = vec![halo_type.clone(), self.type_tag.clone()];
        let ghost pv = pair@;
        let child_halo = TypeTerm::Ladder(pair).normalize();
        proof {
            lemma_seq_model(pv);
            assert(crate::term::seq_model(pv) =~= seq![halo_type@, self.type_tag@]);
            assert(child_halo@ == spec_child_halo(halo_type@, self.type_tag@));
        }
        self.halo = halo_type;
        let ghost orig = *old(self);
        let n: usize = self.branches.len();
        let mut i: usize = 0;
        while i < n
            invariant
                n == self.branches@.len(),
                i <= n,
                self.halo@ == halo_type@,
                self.type_tag == orig.type_tag,
                self.leaf == orig.leaf,
                self.edges == orig.edges,
                child_halo@ == spec_child_halo(halo_type@, old(self)@.tag),
                forall|j: int| i <= j < n ==> self.branches@[j] == orig.branches@[j],
                forall|j: int|
                    0 <= j < i ==> tree_model(#[trigger] self.branches@[j]) == spec_set_halo(
                        tree_model(orig.branches@[j]),
                        child_halo@,
                    ),
            decreases n - i,
        {
            proof {
                assert(decreases_to!(orig => orig.branches));
                assert(decreases_to!(orig.branches => orig.branches@));
                assert(decreases_to!(orig.branches@ => orig.branches@[i as int]));
            }
            let ch = child_halo.clone();
            self.branches[i].set_halo(ch);
            i = i + 1;
        }
        proof {
            lemma_trees_model(self.branches@);
            lemma_trees_model(orig.branches@);
            lemma_set_halo_seq(trees_model(orig.branches@), child_halo@);
            assert(trees_model(self.branches@) =~= spec_set_halo_seq(
                trees_model(orig.branches@),
                child_halo@,
            ));
            assert(edges_model(self.edges@) == edges_model(orig.edges@));
            assert(self@.halo == halo_type@);
            assert(self@.tag == old(self)@.tag);
            assert(self@.leaf == old(self)@.leaf);
            assert(self@.edges == old(self)@.edges);
            assert(self@.branches =~= spec_set_halo(old(self)@, halo_type@).branches);
            assert(self@ =~= spec_set_halo(old(self)@, halo_type@));
        }
    }

    /// Registers `repr` as the branch of its own type: it takes this
    /// node's full ladder as its halo (recursively), replaces any
    /// branch of the same type, and loses wiring of its own — a
    /// projection stays with the tree it was applied to.
    pub fn insert_branch(&mut self, repr: ReprTree)
        requires
            is_flat_model(repr@.tag),
        ensures
            final(self)@ == spec_insert_branch(old(self)@, repr@),
    {
        let mut repr = repr;
        let ghost orig_child = repr@;
        repr.edges = Vec::new();
        proof {
            assert(edges_model(repr.edges@) =~= Seq::<EdgeModel>::empty());
            assert(repr@ =~= (TreeModel { edges: Seq::empty(), ..orig_child }));
        }
        let pair = vec![self.halo.clone(), self.type_tag.clone()];
        let ghost pv = pair@;
        let child_halo = TypeTerm::Ladder(pair).normalize();
        proof {
            lemma_seq_model(pv);
            assert(crate::term::seq_model(pv) =~= seq![self@.halo, self@.tag]);
            assert(child_halo@ == spec_child_halo(self@.halo, self@.tag));
        }
        repr.set_halo(child_halo);
        let idx = self.find_branch_index(&repr.type_tag);
        proof {
            assert(repr@.tag == orig_child.tag);
            lemma_trees_model(self.branches@);
        }
        match idx {
            Some(i) => {
                self.branches[i] = repr;
                proof {
                    lemma_trees_model(self.branches@);
                    lemma_trees_model(old(self).branches@);
                    assert(trees_model(self.branches@) =~= trees_model(
                        old(self).branches@,
                    ).update(i as int, repr@));
                    assert(self@ =~= spec_insert_branch(old(self)@, orig_child));
                }
            }
            None => {
                self.branches.push(repr);
                proof {
                    lemma_trees_model(self.branches@);
                    lemma_trees_model(old(self).branches@);
                    assert(trees_model(self.branches@) =~= trees_model(old(self).branches@).push(
                        repr@,
                    ));
                    assert(self@ =~= spec_insert_branch(old(self)@, orig_child));
                }
            }
        }
    }

    /// A fresh chain of nodes for `rungs[from..]`, with `leaf` (if any)
    /// installed at the bottom node.
    fn build_chain(rungs: &Vec<TypeTerm>, from: usize, leaf: Option<ReprLeaf>) -> (r: ReprTree)
        requires
            from < rungs@.len(),
            forall|j: int|
                0 <= j < crate::term::seq_model(rungs@).len() ==> is_flat_model(
                    #[trigger] crate::term::seq_model(rungs@)[j],
                ),
        ensures
            r@ == spec_leaf_chain(
                crate::term::seq_model(rungs@),
                from as int,
                match leaf {
                    Some(l) => Some(leaf_model(l)),
                    None => None,
                },
            ),
        decreases rungs@.len() - from,
    {
        proof {
            lemma_seq_model(rungs@);
        }
        let tag = rungs[from].clone();
        let mut node = ReprTree::new(tag);
        let n: usize = rungs.len();
        if from + 1 < n {
            let child = Self::build_chain(rungs, from + 1, leaf);
            node.branches.push(child);
            proof {
                lemma_trees_model(node.branches@);
                assert(trees_model(node.branches@) =~= seq![child@]);
                assert(node@ =~= spec_leaf_chain(
                    crate::term::seq_model(rungs@),
                    from as int,
                    match leaf {
                        Some(l) => Some(leaf_model(l)),
                        None => None,
                    },
                ));
            }
            node
        } else {
            node.leaf = leaf;
            proof {
                assert(node@ =~= spec_leaf_chain(
                    crate::term::seq_model(rungs@),
                    from as int,
                    match leaf {
                        Some(l) => Some(leaf_model(l)),
                        None => None,
                    },
                ));
            }
            node
        }
    }

    /// Creates every missing node along the ladder, each without a
    /// leaf: the slot of the first rung is filled with a fresh chain.
    pub fn create_branch(&mut self, rung: &TypeTerm)
        ensures
            final(self)@ == spec_create_branch(old(self)@, lnf_model(rung@)),
    {
        let rungs = rung.get_lnf_vec();
        proof {
            crate::term::lemma_lnf_flat(rung@);
            lemma_seq_model(rungs@);
        }
        if rungs.len() == 0 {
            return;
        }
        let chain = Self::build_chain(&rungs, 0, None);
        self.insert_branch(chain);
    }

    /// Installs `leaf` at the end of the ladder, creating any missing
    /// nodes on the way and overwriting a leaf already present there.
    pub fn insert_leaf(&mut self, type_ladder: &TypeTerm, leaf: ReprLeaf)
        ensures
            final(self)@ == spec_insert_leaf(old(self)@, lnf_model(type_ladder@), 0, Some(leaf_model(leaf))),
    {
        let rungs = type_ladder.get_lnf_vec();
        proof {
            crate::term::lemma_lnf_flat(type_ladder@);
        }
        self.insert_leaf_path(&rungs, 0, leaf);
    }

    /// Installs `leaf` at the end of `rungs[from..]`.
    fn insert_leaf_path(&mut self, rungs: &Vec<TypeTerm>, from: usize, leaf: ReprLeaf)
        requires
            from <= rungs@.len(),
            forall|j: int|
                0 <= j < crate::term::seq_model(rungs@).len() ==> is_flat_model(
                    #[trigger] crate::term::seq_model(rungs@)[j],
                ),
        ensures
            final(self)@ == spec_insert_leaf(
                old(self)@,
                crate::term::seq_model(rungs@),
                from as int,
                Some(leaf_model(leaf)),
            ),
        decreases rungs@.len() - from,
    {
        proof {
            lemma_seq_model(rungs@);
        }
        if from >= rungs.len() {
            self.leaf = Some(leaf);
            proof {
                assert(self@ =~= spec_insert_leaf(
                    old(self)@,
                    crate::term::seq_model(rungs@),
                    from as int,
                    Some(leaf_model(leaf)),
                ));
            }
            return;
        }
        let rung = &rungs[from];
        if *rung == self.type_tag {
            self.insert_leaf_path(rungs, from + 1, leaf);
            return;
        }
        match self.find_branch_index(rung) {
            Some(bi) => {
                self.branches[bi].insert_leaf_path(rungs, from + 1, leaf);
                proof {
                    lemma_trees_model(self.branches@);
                    lemma_trees_model(old(self).branches@);
                    assert(trees_model(self.branches@) =~= trees_model(
                        old(self).branches@,
                    ).update(
                        bi as int,
                        spec_insert_leaf(
                            old(self)@.branches[bi as int],
                            crate::term::seq_model(rungs@),
                            from as int + 1,
                            Some(leaf_model(leaf)),
                        ),
                    ));
                    assert(self@ =~= spec_insert_leaf(
                        old(self)@,
                        crate::term::seq_model(rungs@),
                        from as int,
                        Some(leaf_model(leaf)),
                    ));
                }
            }
            None => {
                let chain = Self::build_chain(rungs, from, Some(leaf));
                self.insert_branch(chain);
            }
        }
    }

    /// Wraps a tree as the sole branch of a fresh parent node of the
    /// given type.  As with [`ReprTree::insert_branch`], the wrapped
    /// tree's own wiring is deliberately dropped: a projection belongs
    /// to the tree it was applied to, not to a subtree moved elsewhere.
    pub fn ascend(rt: ReprTree, type_term: TypeTerm) -> (r: ReprTree)
        requires
            is_flat_model(type_term@),
            is_flat_model(rt@.tag),
        ensures
            r@ == spec_insert_branch(
                TreeModel {
                    halo: unit_model(),
                    tag: type_term@,
                    branches: Seq::empty(),
                    leaf: None,
                    edges: Seq::empty(),
                },
                rt@,
            ),
    {
        let mut n = ReprTree::new(type_term);
        n.insert_branch(rt);
        n
    }
}


/// If the branch of a type sits first at `i`, replacing the element at
/// `i` with one of the same type keeps it the first match.
proof fn lemma_branch_idx_update_from(
    s: Seq<TreeModel>,
    tag: TermModel,
    i: int,
    c: TreeModel,
    j: int,
)
    requires
        c.tag == tag,
        0 <= j <= i < s.len(),
        branch_idx_from(s, tag, j) == i,
    ensures
        branch_idx_from(s.update(i, c), tag, j) == i,
    decreases i - j,
{
    if j == i {
        assert(s.update(i, c)[i] == c);
    } else {
        assert(s[j].tag != tag);
        assert(s.update(i, c)[j] == s[j]);
        lemma_branch_idx_update_from(s, tag, i, c, j + 1);
    }
}

/// If no branch has the type, appending one of that type makes it the
/// first (and only) match, at the old length.
proof fn lemma_branch_idx_push_from(s: Seq<TreeModel>, tag: TermModel, c: TreeModel, j: int)
    requires
        c.tag == tag,
        0 <= j <= s.len(),
        branch_idx_from(s, tag, j) == -1,
    ensures
        branch_idx_from(s.push(c), tag, j) == s.len(),
    decreases s.len() - j,
{
    if j == s.len() {
        assert(s.push(c)[j] == c);
    } else {
        assert(s[j].tag != tag);
        assert(s.push(c)[j] == s[j]);
        lemma_branch_idx_push_from(s, tag, c, j + 1);
    }
}


/// At most one branch per type, at every node: the invariant every
/// operation of the library maintains (each node's branch map is keyed
/// by the branches' own types).
pub open spec fn spec_branches_unique(m: TreeModel) -> bool
    decreases m,
{
    &&& (forall|i: int, j: int|
        0 <= i < j < m.branches.len() ==> (#[trigger] m.branches[i]).tag != (
        #[trigger] m.branches[j]).tag)
    &&& (forall|i: int|
        0 <= i < m.branches.len() ==> spec_branches_unique(#[trigger] m.branches[i]))
}

/// Recomputing halos keeps the branch types unique.
pub proof fn lemma_set_halo_unique(m: TreeModel, h: TermModel)
    requires
        spec_branches_unique(m),
    ensures
        spec_branches_unique(spec_set_halo(m, h)),
    decreases m,
{
    let h2 = spec_child_halo(h, m.tag);
    lemma_set_halo_seq(m.branches, h2);
    let m2 = spec_set_halo(m, h);
    assert forall|i: int|
        0 <= i < m2.branches.len() implies spec_branches_unique(#[trigger] m2.branches[i]) by {
        lemma_set_halo_unique(m.branches[i], h2);
    }
    assert forall|i: int, j: int|
        0 <= i < j < m2.branches.len() implies (#[trigger] m2.branches[i]).tag != (
    #[trigger] m2.branches[j]).tag by {
        assert(m2.branches[i].tag == m.branches[i].tag);
        assert(m2.branches[j].tag == m.branches[j].tag);
    }
}

/// Registering a child keeps the branch types unique.
pub proof fn lemma_insert_branch_unique(m: TreeModel, c: TreeModel)
    requires
        spec_branches_unique(m),
        spec_branches_unique(c),
    ensures
        spec_branches_unique(spec_insert_branch(m, c)),
{
    let cleared = TreeModel { edges: Seq::empty(), ..c };
    let h = spec_child_halo(m.halo, m.tag);
    lemma_set_halo_unique(cleared, h);
    let c2 = spec_set_halo(cleared, h);
    let bi = branch_idx(m, c.tag);
    lemma_branch_idx_from(m.branches, c.tag, 0);
    let m2 = spec_insert_branch(m, c);
    if bi == -1 {
        assert forall|i: int, j: int|
            0 <= i < j < m2.branches.len() implies (#[trigger] m2.branches[i]).tag != (
        #[trigger] m2.branches[j]).tag by {
            if j < m.branches.len() {
                assert(m.branches[i].tag != m.branches[j].tag);
            } else {
                assert(m.branches[i].tag != c.tag);
            }
        }
    } else {
        assert(m.branches[bi].tag == c.tag);
        assert forall|i: int, j: int|
            0 <= i < j < m2.branches.len() implies (#[trigger] m2.branches[i]).tag != (
        #[trigger] m2.branches[j]).tag by {
            assert(m.branches[i].tag != m.branches[j].tag);
        }
    }
}

/// A fresh chain has unique branch types (each node has at most one).
pub proof fn lemma_leaf_chain_unique(path: Seq<TermModel>, i: int, leaf: Option<LeafModel>)
    ensures
        spec_branches_unique(spec_leaf_chain(path, i, leaf)),
    decreases path.len() - i,
{
    if i + 1 < path.len() {
        lemma_leaf_chain_unique(path, i + 1, leaf);
    }
}

/// Creating all missing nodes along a ladder keeps the branch types
/// unique.
pub proof fn lemma_create_branch_unique(m: TreeModel, path: Seq<TermModel>)
    requires
        spec_branches_unique(m),
    ensures
        spec_branches_unique(spec_create_branch(m, path)),
{
    if path.len() > 0 {
        lemma_leaf_chain_unique(path, 0, None);
        lemma_insert_branch_unique(m, spec_leaf_chain(path, 0, None));
    }
}

/// Installing a leaf keeps the branch types unique.
pub proof fn lemma_insert_leaf_unique(
    m: TreeModel,
    path: Seq<TermModel>,
    i: int,
    leaf: Option<LeafModel>,
)
    requires
        spec_branches_unique(m),
    ensures
        spec_branches_unique(spec_insert_leaf(m, path, i, leaf)),
        spec_insert_leaf(m, path, i, leaf).tag == m.tag,
        spec_insert_leaf(m, path, i, leaf).branches.len() == m.branches.len() || spec_insert_leaf(
            m,
            path,
            i,
            leaf,
        ).branches.len() == m.branches.len() + 1,
    decreases path.len() - i,
{
    if i < 0 || i >= path.len() {
    } else if path[i] == m.tag {
        lemma_insert_leaf_unique(m, path, i + 1, leaf);
    } else {
        let bi = branch_idx(m, path[i]);
        lemma_branch_idx_from(m.branches, path[i], 0);
        if bi == -1 {
            lemma_leaf_chain_unique(path, i, leaf);
            lemma_insert_branch_unique(m, spec_leaf_chain(path, i, leaf));
        } else {
            lemma_insert_leaf_unique(m.branches[bi], path, i + 1, leaf);
            let m2 = spec_insert_leaf(m, path, i, leaf);
            assert forall|a: int, b: int|
                0 <= a < b < m2.branches.len() implies (#[trigger] m2.branches[a]).tag != (
            #[trigger] m2.branches[b]).tag by {
                assert(m.branches[a].tag != m.branches[b].tag);
            }
        }
    }
}

/// Making sure a leaf exists keeps the branch types unique.
pub proof fn lemma_ensure_leaf_unique(m: TreeModel, path: Seq<TermModel>, i: int)
    requires
        spec_branches_unique(m),
    ensures
        spec_branches_unique(spec_ensure_leaf(m, path, i)),
    decreases path.len() - i,
{
    if i < 0 || i >= path.len() {
    } else if path[i] == m.tag {
        lemma_ensure_leaf_unique(m, path, i + 1);
    } else {
        let bi = branch_idx(m, path[i]);
        lemma_branch_idx_from(m.branches, path[i], 0);
        if bi == -1 {
            lemma_leaf_chain_unique(path, i, Some(LeafModel { data: None }));
            lemma_insert_branch_unique(
                m,
                spec_leaf_chain(path, i, Some(LeafModel { data: None })),
            );
        } else {
            lemma_ensure_leaf_unique(m.branches[bi], path, i + 1);
            let m2 = spec_ensure_leaf(m, path, i);
            assert(spec_ensure_leaf(m.branches[bi], path, i + 1).tag == m.branches[bi].tag) by {
                lemma_ensure_leaf_frame_tag(m.branches[bi], path, i + 1);
            }
            assert forall|a: int, b: int|
                0 <= a < b < m2.branches.len() implies (#[trigger] m2.branches[a]).tag != (
            #[trigger] m2.branches[b]).tag by {
                assert(m.branches[a].tag != m.branches[b].tag);
            }
        }
    }
}

/// Making sure a leaf exists keeps the node's own type.
pub proof fn lemma_ensure_leaf_frame_tag(m: TreeModel, path: Seq<TermModel>, i: int)
    ensures
        spec_ensure_leaf(m, path, i).tag == m.tag,
    decreases path.len() - i,
{
    if 0 <= i < path.len() && path[i] == m.tag {
        lemma_ensure_leaf_frame_tag(m, path, i + 1);
    }
}

/// Writing a buffer keeps the branch types unique.
pub proof fn lemma_write_leaf_unique(
    m: TreeModel,
    path: Seq<TermModel>,
    i: int,
    v: ValueModel,
    b: bool,
)
    requires
        spec_branches_unique(m),
    ensures
        spec_branches_unique(spec_write_leaf(m, path, i, v, b)),
    decreases path.len() - i,
{
    if i < 0 || i >= path.len() {
    } else if path[i] == m.tag {
        lemma_write_leaf_unique(m, path, i + 1, v, b);
    } else {
        let bi = branch_idx(m, path[i]);
        lemma_branch_idx_from(m.branches, path[i], 0);
        if bi != -1 {
            lemma_write_leaf_unique(m.branches[bi], path, i + 1, v, b);
            lemma_write_leaf_frame(m.branches[bi], path, i + 1, v, b);
            let m2 = spec_write_leaf(m, path, i, v, b);
            assert forall|a: int, c: int|
                0 <= a < c < m2.branches.len() implies (#[trigger] m2.branches[a]).tag != (
            #[trigger] m2.branches[c]).tag by {
                assert(m.branches[a].tag != m.branches[c].tag);
            }
        }
    }
}

/// Pushing changes along the wiring keeps the branch types unique.
pub proof fn lemma_propagate_unique(m: TreeModel, from: Seq<TermModel>, fuel: nat)
    requires
        spec_branches_unique(m),
    ensures
        spec_branches_unique(spec_propagate(m, from, fuel)),
    decreases fuel, m.edges.len() + 1,
{
    if fuel > 0 {
        lemma_propagate_edges_unique(m.edges, m, from, fuel, 0);
    }
}

/// One pass of pushing keeps the branch types unique.
pub proof fn lemma_propagate_edges_unique(
    edges: Seq<EdgeModel>,
    m: TreeModel,
    from: Seq<TermModel>,
    fuel: nat,
    i: int,
)
    requires
        spec_branches_unique(m),
    ensures
        spec_branches_unique(spec_propagate_edges(edges, m, from, fuel, i)),
    decreases fuel, edges.len() - i,
{
    if fuel == 0 || i < 0 || i >= edges.len() {
    } else {
        let e = edges[i];
        if e.src == from {
            let m3 = match spec_view_value(m, e.src, m.edges.len() as nat) {
                Some(sv) => match spec_apply_transform(e.transform, sv) {
                    Some(w) => spec_write_leaf(m, e.dst, 0, w, true),
                    None => m,
                },
                None => m,
            };
            match spec_view_value(m, e.src, m.edges.len() as nat) {
                Some(sv) => match spec_apply_transform(e.transform, sv) {
                    Some(w) => {
                        lemma_write_leaf_unique(m, e.dst, 0, w, true);
                    }
                    None => {}
                },
                None => {}
            }
            lemma_propagate_unique(m3, e.dst, (fuel - 1) as nat);
            lemma_propagate_edges_unique(
                edges,
                spec_propagate(m3, e.dst, (fuel - 1) as nat),
                from,
                fuel,
                i + 1,
            );
        } else {
            lemma_propagate_edges_unique(edges, m, from, fuel, i + 1);
        }
    }
}

/// Wiring a projection keeps the branch types unique.
pub proof fn lemma_attach_unique(m: TreeModel, e: EdgeModel)
    requires
        spec_branches_unique(m),
    ensures
        spec_branches_unique(spec_attach(m, e)),
{
    lemma_ensure_leaf_unique(m, e.dst, 0);
    let m1 = spec_ensure_leaf(m, e.dst, 0);
    let m2 = spec_set_edge(m1, e);
    assert(spec_branches_unique(m2));
    let m3 = match spec_view_value(m2, e.src, m2.edges.len() as nat) {
        Some(sv) => match spec_apply_transform(e.transform, sv) {
            Some(w) => spec_write_leaf(m2, e.dst, 0, w, true),
            None => m2,
        },
        None => m2,
    };
    match spec_view_value(m2, e.src, m2.edges.len() as nat) {
        Some(sv) => match spec_apply_transform(e.transform, sv) {
            Some(w) => {
                lemma_write_leaf_unique(m2, e.dst, 0, w, true);
            }
            None => {}
        },
        None => {}
    }
    lemma_propagate_unique(m3, e.dst, m3.edges.len() as nat);
}

/// Writing a buffer and pushing the change keeps the branch types
/// unique.
pub proof fn lemma_set_value_unique(m: TreeModel, path: Seq<TermModel>, v: ValueModel)
    requires
        spec_branches_unique(m),
    ensures
        spec_branches_unique(spec_set_value(m, path, v)),
{
    lemma_write_leaf_unique(m, path, 0, v, false);
    let m2 = spec_write_leaf(m, path, 0, v, false);
    lemma_propagate_unique(m2, path, m2.edges.len() as nat);
}

/// Detaching keeps the branch types unique.
pub proof fn lemma_detach_unique(m: TreeModel, primary: Seq<TermModel>)
    requires
        spec_branches_unique(m),
    ensures
        spec_branches_unique(spec_detach(m, primary)),
{
    lemma_detach_from_unique(m.edges, m, primary, 0, Seq::empty());
}

/// One detach pass keeps the branch types unique.
pub proof fn lemma_detach_from_unique(
    edges: Seq<EdgeModel>,
    m: TreeModel,
    primary: Seq<TermModel>,
    i: int,
    kept: Seq<EdgeModel>,
)
    requires
        spec_branches_unique(m),
    ensures
        spec_branches_unique(spec_detach_from(edges, m, primary, i, kept)),
    decreases edges.len() - i,
{
    if i < 0 || i >= edges.len() {
    } else {
        let e = edges[i];
        let prim = match spec_descend(m, e.dst, 0) {
            Some(node) => primary.contains(node.tag),
            None => false,
        };
        if prim {
            let m2 = match spec_view_value(m, e.dst, m.edges.len() as nat) {
                Some(v) => spec_write_leaf(m, e.dst, 0, v, false),
                None => m,
            };
            match spec_view_value(m, e.dst, m.edges.len() as nat) {
                Some(v) => {
                    lemma_write_leaf_unique(m, e.dst, 0, v, false);
                }
                None => {}
            }
            lemma_detach_from_unique(edges, m2, primary, i + 1, kept);
        } else {
            lemma_detach_from_unique(edges, m, primary, i + 1, kept.push(e));
        }
    }
}

/// Halo propagation: inserting `c` under `b` and then `b` under `a`
/// leaves `c` carrying the whole ancestor ladder `a.halo ~ a.tag ~
/// b.tag`, in normal form — the same ladder it would get from a single
/// normalization of the chain.
pub proof fn lemma_halo_propagation(a: TreeModel, b: TreeModel, c: TreeModel)
    ensures
        ({
            let b2 = spec_insert_branch(b, c);
            let a2 = spec_insert_branch(a, b2);
            let ci = branch_idx(b, c.tag);
            let cpos = if ci == -1 {
                b.branches.len() as int
            } else {
                ci
            };
            let bi = branch_idx(a, b.tag);
            let bpos = if bi == -1 {
                a.branches.len() as int
            } else {
                bi
            };
            &&& 0 <= bpos < a2.branches.len()
            &&& 0 <= cpos < a2.branches[bpos].branches.len()
            &&& a2.branches[bpos].branches[cpos].halo == normalize_model(
                TermModel::Ladder(seq![a.halo, a.tag, b.tag]),
            )
        }),
{
    let b2 = spec_insert_branch(b, c);
    let ci = branch_idx(b, c.tag);
    let cpos = if ci == -1 {
        b.branches.len() as int
    } else {
        ci
    };
    lemma_branch_idx_from(b.branches, c.tag, 0);
    let hc = spec_child_halo(b.halo, b.tag);
    let c2 = spec_set_halo(TreeModel { edges: Seq::empty(), ..c }, hc);
    assert(b2.branches[cpos] == c2);

    let a2 = spec_insert_branch(a, b2);
    let bi = branch_idx(a, b2.tag);
    let bpos = if bi == -1 {
        a.branches.len() as int
    } else {
        bi
    };
    lemma_branch_idx_from(a.branches, b2.tag, 0);
    let h1 = spec_child_halo(a.halo, a.tag);
    let b3 = spec_set_halo(TreeModel { edges: Seq::empty(), ..b2 }, h1);
    assert(a2.branches[bpos] == b3);

    let h2 = spec_child_halo(h1, b.tag);
    lemma_set_halo_seq(b2.branches, h2);
    assert(b3.branches[cpos] == spec_set_halo(c2, h2));
    assert(b3.branches[cpos].halo == h2);

    // h2 is the normalized three-rung ladder.
    let la2 = TermModel::Ladder(seq![a.halo, a.tag]);
    let lh1 = TermModel::Ladder(seq![h1, b.tag]);
    let la3 = TermModel::Ladder(seq![a.halo, a.tag, b.tag]);
    crate::term::lemma_lnf_normalize(la2);
    lemma_lnf_two(a.halo, a.tag);
    lemma_lnf_two(h1, b.tag);
    lemma_lnf_three(a.halo, a.tag, b.tag);
    assert(lnf_model(h1) == lnf_model(la2));
    assert(lnf_model(lh1) =~= lnf_model(la3));
    assert(h2 == normalize_model(la3));
}

/// The normal form of a two-rung ladder, unfolded.
proof fn lemma_lnf_two(x: TermModel, y: TermModel)
    ensures
        lnf_model(TermModel::Ladder(seq![x, y])) == lnf_model(x) + lnf_model(y),
{
    let s = seq![x, y];
    assert(s.subrange(1, 2) =~= seq![y]);
    assert(seq![y].subrange(1, 1) =~= Seq::<TermModel>::empty());
    assert(lnf_concat(seq![y]) == lnf_model(y) + lnf_concat(seq![y].subrange(1, 1)));
    assert(lnf_concat(Seq::<TermModel>::empty()) == Seq::<TermModel>::empty());
    assert(lnf_concat(seq![y]) =~= lnf_model(y));
    assert(lnf_concat(s) =~= lnf_model(x) + lnf_model(y));
}

/// The normal form of a three-rung ladder, unfolded.
proof fn lemma_lnf_three(x: TermModel, y: TermModel, z: TermModel)
    ensures
        lnf_model(TermModel::Ladder(seq![x, y, z])) == lnf_model(x) + lnf_model(y) + lnf_model(z),
{
    let s = seq![x, y, z];
    lemma_lnf_two(y, z);
    assert(s.subrange(1, 3) =~= seq![y, z]);
    assert(lnf_concat(seq![y, z]) == lnf_model(TermModel::Ladder(seq![y, z])));
    assert(lnf_concat(s) =~= lnf_model(x) + (lnf_model(y) + lnf_model(z)));
    assert(lnf_model(x) + (lnf_model(y) + lnf_model(z)) =~= lnf_model(x) + lnf_model(y) + lnf_model(
        z,
    ));
}

/// Creating the same branch ladder twice changes nothing the second
/// time: the fresh chain replaces the identical fresh chain in the
/// same slot, so the tree — in particular the set of reachable leaf
/// types — stays as after the first call.
pub proof fn lemma_create_branch_idempotent(m: TreeModel, path: Seq<TermModel>)
    ensures
        spec_create_branch(spec_create_branch(m, path), path) == spec_create_branch(m, path),
{
    if path.len() > 0 {
        let chain = spec_leaf_chain(path, 0, None);
        let tag = chain.tag;
        let h = spec_child_halo(m.halo, m.tag);
        let c2 = spec_set_halo(TreeModel { edges: Seq::empty(), ..chain }, h);
        let i = branch_idx(m, tag);
        let m1 = spec_insert_branch(m, chain);
        assert(m1.halo == m.halo && m1.tag == m.tag);
        assert(spec_child_halo(m1.halo, m1.tag) == h);
        lemma_branch_idx_from(m.branches, tag, 0);
        if i == -1 {
            lemma_branch_idx_push_from(m.branches, tag, c2, 0);
            assert(branch_idx(m1, tag) == m.branches.len());
            let m2 = spec_insert_branch(m1, chain);
            assert(m2.branches =~= m1.branches);
            assert(m2 =~= m1);
        } else {
            lemma_branch_idx_update_from(m.branches, tag, i, c2, 0);
            assert(branch_idx(m1, tag) == i);
            let m2 = spec_insert_branch(m1, chain);
            assert(m2.branches =~= m1.branches);
            assert(m2 =~= m1);
        }
    }
}

/// The full ladder types of all leaves below (and at) a node: the
/// node's own type where it carries a leaf, and for every branch its
/// leaf types extended upward by this node's type, normalized.
pub open spec fn spec_leaf_types(m: TreeModel) -> Seq<TermModel>
    decreases m, 1int,
{
    let own: Seq<TermModel> = if m.leaf is Some {
        seq![m.tag]
    } else {
        Seq::empty()
    };
    own + spec_leaf_types_seq(m.branches, m.tag)
}

/// The extended leaf types of a sequence of branches.
pub open spec fn spec_leaf_types_seq(s: Seq<TreeModel>, parent_tag: TermModel) -> Seq<TermModel>
    decreases s, 2int,
{
    if s.len() == 0 {
        Seq::empty()
    } else {
        spec_prefix_types(parent_tag, spec_leaf_types(s[0])) + spec_leaf_types_seq(
            s.subrange(1, s.len() as int),
            parent_tag,
        )
    }
}

/// Each type extended upward by a parent tag: `normalize(tag ~ t)`.
pub open spec fn spec_prefix_types(tag: TermModel, ts: Seq<TermModel>) -> Seq<TermModel>
    decreases ts.len(),
{
    if ts.len() == 0 {
        Seq::empty()
    } else {
        seq![normalize_model(TermModel::Ladder(seq![tag, ts[0]]))] + spec_prefix_types(
            tag,
            ts.subrange(1, ts.len() as int),
        )
    }
}

/// `spec_prefix_types` maps elementwise.
pub proof fn lemma_prefix_types(tag: TermModel, ts: Seq<TermModel>)
    ensures
        spec_prefix_types(tag, ts).len() == ts.len(),
        forall|i: int|
            0 <= i < ts.len() ==> spec_prefix_types(tag, ts)[i] == normalize_model(
                TermModel::Ladder(seq![tag, ts[i]]),
            ),
    decreases ts.len(),
{
    if ts.len() > 0 {
        lemma_prefix_types(tag, ts.subrange(1, ts.len() as int));
        assert forall|i: int|
            0 <= i < ts.len() implies spec_prefix_types(tag, ts)[i] == normalize_model(
            TermModel::Ladder(seq![tag, ts[i]]),
        ) by {
            if i > 0 {
                assert(ts.subrange(1, ts.len() as int)[i - 1] == ts[i]);
            }
        }
    }
}


/// Splitting the last branch off the extended leaf types.
pub proof fn lemma_leaf_types_seq_snoc(s: Seq<TreeModel>, tag: TermModel)
    requires
        s.len() > 0,
    ensures
        spec_leaf_types_seq(s, tag) == spec_leaf_types_seq(s.subrange(0, s.len() - 1), tag)
            + spec_prefix_types(tag, spec_leaf_types(s[s.len() - 1])),
    decreases s.len(),
{
    if s.len() == 1 {
        assert(s.subrange(0, 0) =~= Seq::<TreeModel>::empty());
        assert(s.subrange(1, 1) =~= Seq::<TreeModel>::empty());
        assert(spec_leaf_types_seq(s, tag) =~= spec_leaf_types_seq(s.subrange(0, 0), tag)
            + spec_prefix_types(tag, spec_leaf_types(s[0])));
    } else {
        let tail = s.subrange(1, s.len() as int);
        lemma_leaf_types_seq_snoc(tail, tag);
        assert(tail.subrange(0, tail.len() - 1) =~= s.subrange(0, s.len() - 1).subrange(
            1,
            s.len() - 1,
        ));
        assert(tail[tail.len() - 1] == s[s.len() - 1]);
        let head = s.subrange(0, s.len() - 1);
        assert(head.len() > 0);
        assert(head[0] == s[0]);
        assert(spec_leaf_types_seq(head, tag) == spec_prefix_types(tag, spec_leaf_types(head[0]))
            + spec_leaf_types_seq(head.subrange(1, head.len() as int), tag));
        assert(spec_leaf_types_seq(s, tag) =~= spec_leaf_types_seq(head, tag) + spec_prefix_types(
            tag,
            spec_leaf_types(s[s.len() - 1]),
        ));
    }
}

/// The first edge aimed at `dst`, from position `i` on; `-1` when none.
pub open spec fn edge_idx_from(edges: Seq<EdgeModel>, dst: Seq<TermModel>, i: int) -> int
    decreases edges.len() - i,
{
    if i < 0 || i >= edges.len() {
        -1
    } else if edges[i].dst == dst {
        i
    } else {
        edge_idx_from(edges, dst, i + 1)
    }
}

/// The index of the edge aimed at `dst`, or `-1`.
pub open spec fn edge_idx(edges: Seq<EdgeModel>, dst: Seq<TermModel>) -> int {
    edge_idx_from(edges, dst, 0)
}

/// The value visible at a path: a leaf's own buffer if it has one,
/// otherwise the value pulled through the projection aimed at the
/// path, recomputed on every read.  `fuel` bounds the pull depth; a
/// cycle of unbuffered leaves runs out of fuel and reads as `None`.
pub open spec fn spec_view_value(m: TreeModel, path: Seq<TermModel>, fuel: nat) -> Option<
    ValueModel,
>
    decreases fuel,
{
    match spec_descend(m, path, 0) {
        None => None,
        Some(node) => match node.leaf {
            None => None,
            Some(leaf) => match leaf.data {
                Some(v) => Some(v),
                None => {
                    let ei = edge_idx(m.edges, path);
                    if ei == -1 || fuel == 0 {
                        None
                    } else {
                        match spec_view_value(m, m.edges[ei].src, (fuel - 1) as nat) {
                            Some(sv) => spec_apply_transform(m.edges[ei].transform, sv),
                            None => None,
                        }
                    }
                },
            },
        },
    }
}

/// Writing `v` into the buffer of the leaf at `path`.  Nothing changes
/// if the path or its leaf is missing, or (`buffered_only`) if the
/// leaf has no buffer of its own.
pub open spec fn spec_write_leaf(
    m: TreeModel,
    path: Seq<TermModel>,
    i: int,
    v: ValueModel,
    buffered_only: bool,
) -> TreeModel
    decreases path.len() - i,
{
    if i < 0 || i >= path.len() {
        match m.leaf {
            Some(leaf) => if leaf.data is Some || !buffered_only {
                TreeModel { leaf: Some(LeafModel { data: Some(v) }), ..m }
            } else {
                m
            },
            None => m,
        }
    } else if path[i] == m.tag {
        spec_write_leaf(m, path, i + 1, v, buffered_only)
    } else {
        let bi = branch_idx(m, path[i]);
        if bi == -1 {
            m
        } else {
            TreeModel {
                branches: m.branches.update(
                    bi,
                    spec_write_leaf(m.branches[bi], path, i + 1, v, buffered_only),
                ),
                ..m
            }
        }
    }
}

/// Pushing a change outward from `from`: every edge whose source is
/// `from` recomputes its destination (updating its buffer if it has
/// one) and pushes on from there.  `fuel` bounds the cascade depth.
pub open spec fn spec_propagate(m: TreeModel, from: Seq<TermModel>, fuel: nat) -> TreeModel
    decreases fuel, m.edges.len() + 1,
{
    if fuel == 0 {
        m
    } else {
        spec_propagate_edges(m.edges, m, from, fuel, 0)
    }
}

/// One pass over the edge snapshot `edges`, pushing from `from`.
pub open spec fn spec_propagate_edges(
    edges: Seq<EdgeModel>,
    m: TreeModel,
    from: Seq<TermModel>,
    fuel: nat,
    i: int,
) -> TreeModel
    decreases fuel, edges.len() - i,
{
    if fuel == 0 || i < 0 || i >= edges.len() {
        m
    } else {
        let e = edges[i];
        let m2 = if e.src == from {
            let m3 = match spec_view_value(m, e.src, m.edges.len() as nat) {
                Some(sv) => match spec_apply_transform(e.transform, sv) {
                    Some(w) => spec_write_leaf(m, e.dst, 0, w, true),
                    None => m,
                },
                None => m,
            };
            spec_propagate(m3, e.dst, (fuel - 1) as nat)
        } else {
            m
        };
        spec_propagate_edges(edges, m2, from, fuel, i + 1)
    }
}

/// Making sure a leaf exists at the end of `path[i..]`: missing nodes
/// are created, a missing leaf becomes an empty (unbuffered) one, and
/// an existing leaf is left alone.
pub open spec fn spec_ensure_leaf(m: TreeModel, path: Seq<TermModel>, i: int) -> TreeModel
    decreases path.len() - i,
{
    if i < 0 || i >= path.len() {
        match m.leaf {
            Some(_) => m,
            None => TreeModel { leaf: Some(LeafModel { data: None }), ..m },
        }
    } else if path[i] == m.tag {
        spec_ensure_leaf(m, path, i + 1)
    } else {
        let bi = branch_idx(m, path[i]);
        if bi == -1 {
            spec_insert_branch(m, spec_leaf_chain(path, i, Some(LeafModel { data: None })))
        } else {
            TreeModel {
                branches: m.branches.update(bi, spec_ensure_leaf(m.branches[bi], path, i + 1)),
                ..m
            }
        }
    }
}

/// Recording the projection `e`: it replaces an earlier projection
/// aimed at the same destination, or is appended.
pub open spec fn spec_set_edge(m: TreeModel, e: EdgeModel) -> TreeModel {
    let i = edge_idx(m.edges, e.dst);
    TreeModel {
        edges: if i == -1 {
            m.edges.push(e)
        } else {
            m.edges.update(i, e)
        },
        ..m
    }
}

/// Wiring a projection: the destination leaf is created if missing,
/// the edge recorded, the destination refreshed once from the source
/// (a buffered destination keeps following through its buffer), and
/// the change pushed further along existing wiring.
pub open spec fn spec_attach(m: TreeModel, e: EdgeModel) -> TreeModel {
    let m1 = spec_ensure_leaf(m, e.dst, 0);
    let m2 = spec_set_edge(m1, e);
    let m3 = match spec_view_value(m2, e.src, m2.edges.len() as nat) {
        Some(sv) => match spec_apply_transform(e.transform, sv) {
            Some(w) => spec_write_leaf(m2, e.dst, 0, w, true),
            None => m2,
        },
        None => m2,
    };
    spec_propagate(m3, e.dst, m3.edges.len() as nat)
}

impl ReprTree {
    /// A node of the given flat type holding a buffered scalar value.
    pub fn from_singleton_buffer(type_tag: TypeTerm, v: LeafValue) -> (r: ReprTree)
        requires
            is_flat_model(type_tag@),
        ensures
            r@ == (TreeModel {
                halo: unit_model(),
                tag: type_tag@,
                branches: Seq::empty(),
                leaf: Some(LeafModel { data: Some(v@) }),
                edges: Seq::empty(),
            }),
    {
        let mut r = ReprTree::new(type_tag);
        r.leaf = Some(ReprLeaf { data: Some(v) });
        r
    }

    /// A node of the given flat type holding a buffered list value.
    pub fn from_vec_buffer(type_tag: TypeTerm, v: LeafValue) -> (r: ReprTree)
        requires
            is_flat_model(type_tag@),
        ensures
            r@ == (TreeModel {
                halo: unit_model(),
                tag: type_tag@,
                branches: Seq::empty(),
                leaf: Some(LeafModel { data: Some(v@) }),
                edges: Seq::empty(),
            }),
    {
        ReprTree::from_singleton_buffer(type_tag, v)
    }

    /// A node of the given flat type with an empty pass-through leaf,
    /// ready to have a projection wired to it.
    pub fn from_view(type_tag: TypeTerm) -> (r: ReprTree)
        requires
            is_flat_model(type_tag@),
        ensures
            r@ == (TreeModel {
                halo: unit_model(),
                tag: type_tag@,
                branches: Seq::empty(),
                leaf: Some(LeafModel { data: None }),
                edges: Seq::empty(),
            }),
    {
        let mut r = ReprTree::new(type_tag);
        r.leaf = Some(ReprLeaf { data: None });
        r
    }

    /// The position of the edge aimed at `dst`, if any.
    fn find_edge_index(&self, dst: &Vec<TypeTerm>) -> (r: Option<usize>)
        ensures
            match r {
                Some(i) => i < self.edges@.len() && edge_idx(
                    self@.edges,
                    crate::term::seq_model(dst@),
                ) == i as int,
                None => edge_idx(self@.edges, crate::term::seq_model(dst@)) == -1,
            },
    {
        proof {
            lemma_edges_model(self.edges@);
        }
        let n: usize = self.edges.len();
        let mut i: usize = 0;
        while i < n
            invariant
                n == self.edges.len(),
                i <= n,
                self@.edges.len() == n,
                forall|j: int| 0 <= j < n ==> self@.edges[j] == edge_model(self.edges@[j]),
                edge_idx(self@.edges, crate::term::seq_model(dst@)) == edge_idx_from(
                    self@.edges,
                    crate::term::seq_model(dst@),
                    i as int,
                ),
            decreases n - i,
        {
            if crate::term::terms_eq(&self.edges[i].dst_path, dst) {
                return Some(i);
            }
            i = i + 1;
        }
        None
    }

    /// Reads the value visible at the end of a ladder of rungs:
    /// the leaf's buffer, or the value pulled through the projection
    /// aimed at it.
    pub fn view_path(&self, path: &Vec<TypeTerm>, fuel: usize) -> (r: Option<LeafValue>)
        ensures
            match r {
                Some(v) => spec_view_value(self@, crate::term::seq_model(path@), fuel as nat)
                    == Some(v@),
                None => spec_view_value(self@, crate::term::seq_model(path@), fuel as nat)
                    is None,
            },
        decreases fuel,
    {
        let node = match self.descend_ladder(path, 0) {
            Some(n) => n,
            None => {
                return None;
            },
        };
        let leaf = match &node.leaf {
            Some(l) => l,
            None => {
                return None;
            },
        };
        match &leaf.data {
            Some(v) => Some(v.clone()),
            None => {
                let ei = match self.find_edge_index(path) {
                    Some(i) => i,
                    None => {
                        return None;
                    },
                };
                if fuel == 0 {
                    return None;
                }
                proof {
                    lemma_edges_model(self.edges@);
                }
                let src = &self.edges[ei].src_path;
                match self.view_path(src, fuel - 1) {
                    Some(sv) => self.edges[ei].transform.apply(&sv),
                    None => None,
                }
            },
        }
    }
}



/// Writing a leaf buffer leaves the node's type, halo and wiring as
/// they were, at every level.
pub proof fn lemma_write_leaf_frame(
    m: TreeModel,
    path: Seq<TermModel>,
    i: int,
    v: ValueModel,
    b: bool,
)
    ensures
        spec_write_leaf(m, path, i, v, b).edges == m.edges,
        spec_write_leaf(m, path, i, v, b).tag == m.tag,
        spec_write_leaf(m, path, i, v, b).halo == m.halo,
        spec_write_leaf(m, path, i, v, b).branches.len() == m.branches.len(),
    decreases path.len() - i,
{
    if 0 <= i < path.len() {
        if path[i] == m.tag {
            lemma_write_leaf_frame(m, path, i + 1, v, b);
        } else {
            lemma_branch_idx_from(m.branches, path[i], 0);
        }
    }
}

/// Pushing changes along the wiring leaves the wiring itself alone.
pub proof fn lemma_propagate_frame(m: TreeModel, from: Seq<TermModel>, fuel: nat)
    ensures
        spec_propagate(m, from, fuel).edges == m.edges,
        spec_propagate(m, from, fuel).tag == m.tag,
        spec_propagate(m, from, fuel).halo == m.halo,
    decreases fuel, m.edges.len() + 1,
{
    if fuel > 0 {
        lemma_propagate_edges_frame(m.edges, m, from, fuel, 0);
    }
}

/// One pass of pushing leaves the wiring alone.
pub proof fn lemma_propagate_edges_frame(
    edges: Seq<EdgeModel>,
    m: TreeModel,
    from: Seq<TermModel>,
    fuel: nat,
    i: int,
)
    ensures
        spec_propagate_edges(edges, m, from, fuel, i).edges == m.edges,
        spec_propagate_edges(edges, m, from, fuel, i).tag == m.tag,
        spec_propagate_edges(edges, m, from, fuel, i).halo == m.halo,
    decreases fuel, edges.len() - i,
{
    if fuel == 0 || i < 0 || i >= edges.len() {
    } else {
        let e = edges[i];
        if e.src == from {
            let m3 = match spec_view_value(m, e.src, m.edges.len() as nat) {
                Some(sv) => match spec_apply_transform(e.transform, sv) {
                    Some(w) => spec_write_leaf(m, e.dst, 0, w, true),
                    None => m,
                },
                None => m,
            };
            match spec_view_value(m, e.src, m.edges.len() as nat) {
                Some(sv) => match spec_apply_transform(e.transform, sv) {
                    Some(w) => {
                        lemma_write_leaf_frame(m, e.dst, 0, w, true);
                    }
                    None => {}
                },
                None => {}
            }
            lemma_propagate_frame(m3, e.dst, (fuel - 1) as nat);
            lemma_propagate_edges_frame(edges, spec_propagate(m3, e.dst, (fuel - 1) as nat), from, fuel, i + 1);
        } else {
            lemma_propagate_edges_frame(edges, m, from, fuel, i + 1);
        }
    }
}

/// Making sure a leaf exists leaves the node's wiring as it was.
pub proof fn lemma_ensure_leaf_frame(m: TreeModel, path: Seq<TermModel>, i: int)
    ensures
        spec_ensure_leaf(m, path, i).edges == m.edges,
    decreases path.len() - i,
{
    if 0 <= i < path.len() && path[i] == m.tag {
        lemma_ensure_leaf_frame(m, path, i + 1);
    }
}

/// If the edge aimed at a destination sits first at `i`, replacing the
/// element at `i` with one aimed there keeps it the first match.
proof fn lemma_edge_idx_update_from(
    s: Seq<EdgeModel>,
    dst: Seq<TermModel>,
    i: int,
    e: EdgeModel,
    j: int,
)
    requires
        e.dst == dst,
        0 <= j <= i < s.len(),
        edge_idx_from(s, dst, j) == i,
    ensures
        edge_idx_from(s.update(i, e), dst, j) == i,
    decreases i - j,
{
    if j == i {
        assert(s.update(i, e)[i] == e);
    } else {
        assert(s[j].dst != dst);
        assert(s.update(i, e)[j] == s[j]);
        lemma_edge_idx_update_from(s, dst, i, e, j + 1);
    }
}

/// If no edge aims at the destination, appending one that does makes
/// it the first (and only) match, at the old length.
proof fn lemma_edge_idx_push_from(s: Seq<EdgeModel>, dst: Seq<TermModel>, e: EdgeModel, j: int)
    requires
        e.dst == dst,
        0 <= j <= s.len(),
        edge_idx_from(s, dst, j) == -1,
    ensures
        edge_idx_from(s.push(e), dst, j) == s.len(),
    decreases s.len() - j,
{
    if j == s.len() {
        assert(s.push(e)[j] == e);
    } else {
        assert(s[j].dst != dst);
        assert(s.push(e)[j] == s[j]);
        lemma_edge_idx_push_from(s, dst, e, j + 1);
    }
}

/// After wiring a projection, the projection aimed at its destination
/// is exactly the one wired.
pub proof fn lemma_attach_sets_edge(m: TreeModel, e: EdgeModel)
    ensures
        ({
            let m2 = spec_attach(m, e);
            let ei = edge_idx(m2.edges, e.dst);
            0 <= ei < m2.edges.len() && m2.edges[ei] == e
        }),
{
    let m1 = spec_ensure_leaf(m, e.dst, 0);
    lemma_ensure_leaf_frame(m, e.dst, 0);
    let mset = spec_set_edge(m1, e);
    let i = edge_idx(m1.edges, e.dst);
    lemma_edge_idx_bounds(m1.edges, e.dst, 0);
    if i == -1 {
        lemma_edge_idx_push_from(m1.edges, e.dst, e, 0);
    } else {
        lemma_edge_idx_update_from(m1.edges, e.dst, i, e, 0);
    }
    let m3 = match spec_view_value(mset, e.src, mset.edges.len() as nat) {
        Some(sv) => match spec_apply_transform(e.transform, sv) {
            Some(w) => spec_write_leaf(mset, e.dst, 0, w, true),
            None => mset,
        },
        None => mset,
    };
    match spec_view_value(mset, e.src, mset.edges.len() as nat) {
        Some(sv) => match spec_apply_transform(e.transform, sv) {
            Some(w) => {
                lemma_write_leaf_frame(mset, e.dst, 0, w, true);
            }
            None => {}
        },
        None => {}
    }
    lemma_propagate_frame(m3, e.dst, m3.edges.len() as nat);
}

/// A found edge index is in range and names an edge aimed at `dst`.
proof fn lemma_edge_idx_bounds(s: Seq<EdgeModel>, dst: Seq<TermModel>, i: int)
    requires
        0 <= i <= s.len(),
    ensures
        edge_idx_from(s, dst, i) == -1 || (i <= edge_idx_from(s, dst, i) < s.len() && s[
            edge_idx_from(s, dst, i)
        ].dst == dst),
    decreases s.len() - i,
{
    if i < s.len() && s[i].dst != dst {
        lemma_edge_idx_bounds(s, dst, i + 1);
    }
}

/// The wired projection is live: once a projection is attached, a
/// destination without a buffer of its own reads exactly the source's
/// value passed through the transform — on every read, so a later
/// change of the source shows up at the destination.
pub proof fn lemma_attached_view_follows(m: TreeModel, e: EdgeModel, fuel: nat)
    requires
        fuel >= 1,
        ({
            let m2 = spec_attach(m, e);
            spec_descend(m2, e.dst, 0) matches Some(node) && node.leaf == Some(
                LeafModel { data: None },
            )
        }),
    ensures
        ({
            let m2 = spec_attach(m, e);
            spec_view_value(m2, e.dst, fuel) == (match spec_view_value(
                m2,
                e.src,
                (fuel - 1) as nat,
            ) {
                Some(sv) => spec_apply_transform(e.transform, sv),
                None => None,
            })
        }),
{
    lemma_attach_sets_edge(m, e);
}

/// Writing a buffer, then pushing the change along the wiring.
pub open spec fn spec_set_value(m: TreeModel, path: Seq<TermModel>, v: ValueModel) -> TreeModel {
    let m2 = spec_write_leaf(m, path, 0, v, false);
    spec_propagate(m2, path, m2.edges.len() as nat)
}

/// Detaching the primary representations: every projection aimed at a
/// node whose type is in `primary` is removed, after its current value
/// is frozen into that node's buffer; other wiring stays.
pub open spec fn spec_detach(m: TreeModel, primary: Seq<TermModel>) -> TreeModel {
    spec_detach_from(m.edges, m, primary, 0, Seq::empty())
}

/// One pass over the edge snapshot, freezing and dropping the edges
/// aimed at primary-typed nodes and keeping the rest.
pub open spec fn spec_detach_from(
    edges: Seq<EdgeModel>,
    m: TreeModel,
    primary: Seq<TermModel>,
    i: int,
    kept: Seq<EdgeModel>,
) -> TreeModel
    decreases edges.len() - i,
{
    if i < 0 || i >= edges.len() {
        TreeModel { edges: kept, ..m }
    } else {
        let e = edges[i];
        let prim = match spec_descend(m, e.dst, 0) {
            Some(node) => primary.contains(node.tag),
            None => false,
        };
        if prim {
            let m2 = match spec_view_value(m, e.dst, m.edges.len() as nat) {
                Some(v) => spec_write_leaf(m, e.dst, 0, v, false),
                None => m,
            };
            spec_detach_from(edges, m2, primary, i + 1, kept)
        } else {
            spec_detach_from(edges, m, primary, i + 1, kept.push(e))
        }
    }
}

impl ReprTree {
    /// Writes `v` into the buffer of the leaf at `rungs[from..]`, if
    /// that leaf exists (and, with `buffered_only`, already has one).
    fn write_leaf(&mut self, rungs: &Vec<TypeTerm>, from: usize, v: LeafValue, buffered_only: bool)
        requires
            from <= rungs@.len(),
        ensures
            final(self)@ == spec_write_leaf(
                old(self)@,
                crate::term::seq_model(rungs@),
                from as int,
                v@,
                buffered_only,
            ),
        decreases rungs@.len() - from,
    {
        proof {
            lemma_seq_model(rungs@);
        }
        if from >= rungs.len() {
            let write = match &self.leaf {
                Some(leaf) => leaf.data.is_some() || !buffered_only,
                None => false,
            };
            if write {
                self.leaf = Some(ReprLeaf { data: Some(v) });
                proof {
                    assert(self@ =~= spec_write_leaf(
                        old(self)@,
                        crate::term::seq_model(rungs@),
                        from as int,
                        v@,
                        buffered_only,
                    ));
                }
            }
            return;
        }
        let rung = &rungs[from];
        if *rung == self.type_tag {
            self.write_leaf(rungs, from + 1, v, buffered_only);
            return;
        }
        match self.find_branch_index(rung) {
            Some(bi) => {
                self.branches[bi].write_leaf(rungs, from + 1, v, buffered_only);
                proof {
                    lemma_trees_model(self.branches@);
                    lemma_trees_model(old(self).branches@);
                    assert(trees_model(self.branches@) =~= trees_model(
                        old(self).branches@,
                    ).update(
                        bi as int,
                        spec_write_leaf(
                            old(self)@.branches[bi as int],
                            crate::term::seq_model(rungs@),
                            from as int + 1,
                            v@,
                            buffered_only,
                        ),
                    ));
                    assert(self@ =~= spec_write_leaf(
                        old(self)@,
                        crate::term::seq_model(rungs@),
                        from as int,
                        v@,
                        buffered_only,
                    ));
                }
            }
            None => {}
        }
    }

    /// Pushes a change outward from `from`: each edge with that source
    /// recomputes its destination and pushes on, to depth `fuel`.
    fn propagate(&mut self, from: &Vec<TypeTerm>, fuel: usize)
        ensures
            final(self)@ == spec_propagate(
                old(self)@,
                crate::term::seq_model(from@),
                fuel as nat,
            ),
        decreases fuel,
    {
        if fuel == 0 {
            return;
        }
        let ghost snapshot = self@.edges;
        let ghost fromm = crate::term::seq_model(from@);
        let n: usize = self.edges.len();
        proof {
            lemma_edges_model(self.edges@);
        }
        let mut i: usize = 0;
        while i < n
            invariant
                i <= n,
                snapshot.len() == n,
                self@.edges == snapshot,
                spec_propagate_edges(snapshot, old(self)@, fromm, fuel as nat, 0)
                    == spec_propagate_edges(snapshot, self@, fromm, fuel as nat, i as int),
                fuel > 0,
                fromm == crate::term::seq_model(from@),
            decreases n - i,
        {
            proof {
                lemma_edges_model(self.edges@);
            }
            let matches_src = crate::term::terms_eq(&self.edges[i].src_path, from);
            if matches_src {
                let src = crate::term::clone_terms(&self.edges[i].src_path);
                let dst = crate::term::clone_terms(&self.edges[i].dst_path);
                let tr = self.edges[i].transform;
                let viewfuel: usize = self.edges.len();
                proof {
                    lemma_write_leaf_frame(
                        self@,
                        crate::term::seq_model(dst@),
                        0,
                        arbitrary(),
                        true,
                    );
                }
                match self.view_path(&src, viewfuel) {
                    Some(sv) => match tr.apply(&sv) {
                        Some(w) => {
                            proof {
                                lemma_write_leaf_frame(
                                    self@,
                                    crate::term::seq_model(dst@),
                                    0,
                                    w@,
                                    true,
                                );
                            }
                            self.write_leaf(&dst, 0, w, true);
                        }
                        None => {}
                    },
                    None => {}
                }
                proof {
                    lemma_propagate_frame(self@, crate::term::seq_model(dst@), (fuel - 1) as nat);
                }
                self.propagate(&dst, fuel - 1);
            }
            i = i + 1;
        }
    }

    /// Writes `v` into the buffer at the end of the ladder and pushes
    /// the change along every projection downstream of it.
    pub fn set_value(&mut self, ladder: &TypeTerm, v: LeafValue)
        ensures
            final(self)@ == spec_set_value(old(self)@, lnf_model(ladder@), v@),
    {
        let rungs = ladder.get_lnf_vec();
        self.write_leaf(&rungs, 0, v, false);
        let fuel: usize = self.edges.len();
        proof {
            lemma_edges_model(self.edges@);
        }
        self.propagate(&rungs, fuel);
    }

    /// Makes sure an (empty, unbuffered) leaf exists at the end of
    /// `rungs[from..]`, creating missing nodes on the way; an existing
    /// leaf is left alone.
    fn ensure_leaf(&mut self, rungs: &Vec<TypeTerm>, from: usize)
        requires
            from <= rungs@.len(),
            forall|j: int|
                0 <= j < crate::term::seq_model(rungs@).len() ==> is_flat_model(
                    #[trigger] crate::term::seq_model(rungs@)[j],
                ),
        ensures
            final(self)@ == spec_ensure_leaf(
                old(self)@,
                crate::term::seq_model(rungs@),
                from as int,
            ),
        decreases rungs@.len() - from,
    {
        proof {
            lemma_seq_model(rungs@);
        }
        if from >= rungs.len() {
            if self.leaf.is_none() {
                self.leaf = Some(ReprLeaf { data: None });
                proof {
                    assert(self@ =~= spec_ensure_leaf(
                        old(self)@,
                        crate::term::seq_model(rungs@),
                        from as int,
                    ));
                }
            }
            return;
        }
        let rung = &rungs[from];
        if *rung == self.type_tag {
            self.ensure_leaf(rungs, from + 1);
            return;
        }
        match self.find_branch_index(rung) {
            Some(bi) => {
                self.branches[bi].ensure_leaf(rungs, from + 1);
                proof {
                    lemma_trees_model(self.branches@);
                    lemma_trees_model(old(self).branches@);
                    assert(trees_model(self.branches@) =~= trees_model(
                        old(self).branches@,
                    ).update(
                        bi as int,
                        spec_ensure_leaf(
                            old(self)@.branches[bi as int],
                            crate::term::seq_model(rungs@),
                            from as int + 1,
                        ),
                    ));
                    assert(self@ =~= spec_ensure_leaf(
                        old(self)@,
                        crate::term::seq_model(rungs@),
                        from as int,
                    ));
                }
            }
            None => {
                let chain = Self::build_chain(rungs, from, Some(ReprLeaf { data: None }));
                self.insert_branch(chain);
            }
        }
    }

    /// Records the projection `e`, replacing an earlier projection
    /// aimed at the same destination.
    fn set_edge(&mut self, e: Edge)
        ensures
            final(self)@ == spec_set_edge(old(self)@, edge_model(e)),
    {
        let idx = self.find_edge_index(&e.dst_path);
        match idx {
            Some(i) => {
                self.edges[i] = e;
                proof {
                    lemma_edges_model(self.edges@);
                    lemma_edges_model(old(self).edges@);
                    assert(edges_model(self.edges@) =~= edges_model(old(self).edges@).update(
                        i as int,
                        edge_model(e),
                    ));
                    assert(self@ =~= spec_set_edge(old(self)@, edge_model(e)));
                }
            }
            None => {
                self.edges.push(e);
                proof {
                    lemma_edges_model(self.edges@);
                    lemma_edges_model(old(self).edges@);
                    assert(edges_model(self.edges@) =~= edges_model(old(self).edges@).push(
                        edge_model(e),
                    ));
                    assert(self@ =~= spec_set_edge(old(self)@, edge_model(e)));
                }
            }
        }
    }

    /// Wires a projection into the tree: finds (or creates) the path
    /// to `type_ladder`, attaches a projection that computes its value
    /// from the representation at `src_path` through `transform`, and
    /// refreshes the destination once.  A destination leaf that owns a
    /// buffer keeps following through that buffer; one without stays a
    /// pure view, recomputed on every read.
    pub fn attach_leaf_to(&mut self, type_ladder: &TypeTerm, src_path: Vec<TypeTerm>, transform: Transform)
        ensures
            final(self)@ == spec_attach(
                old(self)@,
                (EdgeModel {
                    src: crate::term::seq_model(src_path@),
                    dst: lnf_model(type_ladder@),
                    transform,
                }),
            ),
    {
        let rungs = type_ladder.get_lnf_vec();
        proof {
            crate::term::lemma_lnf_flat(type_ladder@);
        }
        self.attach_path(rungs, src_path, transform);
    }

    /// Wires a projection given both paths as ladders of flat rungs;
    /// the path-level form of [`ReprTree::attach_leaf_to`].
    pub fn attach_path(&mut self, dst_path: Vec<TypeTerm>, src_path: Vec<TypeTerm>, transform: Transform)
        requires
            forall|j: int|
                0 <= j < crate::term::seq_model(dst_path@).len() ==> is_flat_model(
                    #[trigger] crate::term::seq_model(dst_path@)[j],
                ),
        ensures
            final(self)@ == spec_attach(
                old(self)@,
                (EdgeModel {
                    src: crate::term::seq_model(src_path@),
                    dst: crate::term::seq_model(dst_path@),
                    transform,
                }),
            ),
    {
        let rungs = dst_path;
        let ghost srcm = crate::term::seq_model(src_path@);
        self.ensure_leaf(&rungs, 0);
        let dst_for_refresh = crate::term::clone_terms(&rungs);
        let src_for_refresh = crate::term::clone_terms(&src_path);
        let e = Edge { src_path, dst_path: rungs, transform };
        self.set_edge(e);
        let viewfuel: usize = self.edges.len();
        proof {
            lemma_edges_model(self.edges@);
        }
        match self.view_path(&src_for_refresh, viewfuel) {
            Some(sv) => match transform.apply(&sv) {
                Some(w) => {
                    self.write_leaf(&dst_for_refresh, 0, w, true);
                }
                None => {}
            },
            None => {}
        }
        let fuel: usize = self.edges.len();
        proof {
            lemma_edges_model(self.edges@);
        }
        self.propagate(&dst_for_refresh, fuel);
    }

    /// Severs the wiring into every primary-typed representation,
    /// freezing each one's current value as its own buffer, so that
    /// stale projections can be replaced by a fresh master; wiring into
    /// other representations stays.
    pub fn detach(&mut self, primary: &Vec<TypeTerm>)
        ensures
            final(self)@ == spec_detach(old(self)@, crate::term::seq_model(primary@)),
    {
        let ghost snapshot = self@.edges;
        let ghost pm = crate::term::seq_model(primary@);
        proof {
            lemma_edges_model(self.edges@);
        }
        let n: usize = self.edges.len();
        let mut kept: Vec<Edge> = Vec::new();
        let mut i: usize = 0;
        while i < n
            invariant
                i <= n,
                snapshot.len() == n,
                self@.edges == snapshot,
                pm == crate::term::seq_model(primary@),
                spec_detach_from(snapshot, old(self)@, pm, 0, Seq::empty())
                    == spec_detach_from(snapshot, self@, pm, i as int, edges_model(kept@)),
            decreases n - i,
        {
            proof {
                lemma_edges_model(self.edges@);
                lemma_edges_model(kept@);
            }
            let dst = crate::term::clone_terms(&self.edges[i].dst_path);
            let is_primary = match self.descend_ladder(&dst, 0) {
                Some(node) => contains_term(primary, &node.type_tag),
                None => false,
            };
            if is_primary {
                let viewfuel: usize = self.edges.len();
                match self.view_path(&dst, viewfuel) {
                    Some(v) => {
                        proof {
                            lemma_write_leaf_frame(
                                self@,
                                crate::term::seq_model(dst@),
                                0,
                                v@,
                                false,
                            );
                        }
                        self.write_leaf(&dst, 0, v, false);
                    }
                    None => {}
                }
            } else {
                let src = crate::term::clone_terms(&self.edges[i].src_path);
                let tr = self.edges[i].transform;
                let ghost kept_pre = kept@;
                kept.push(Edge { src_path: src, dst_path: dst, transform: tr });
                proof {
                    lemma_edges_model(kept@);
                    lemma_edges_model(kept_pre);
                    assert(edges_model(kept@) =~= edges_model(kept_pre).push(snapshot[i as int]));
                }
            }
            i = i + 1;
        }
        self.edges = kept;
        proof {
            lemma_edges_model(self.edges@);
            assert(self@ =~= spec_detach_from(snapshot, old(self)@, pm, 0, Seq::empty()));
        }
    }

    /// Materializes the buffer of the leaf at the end of the ladder:
    /// if the leaf has none, its currently visible value becomes its
    /// owned buffer.  Returns the buffered value.  A caller must know a
    /// value is visible there; a missing representation is a wiring
    /// error, not a recoverable condition (probe with
    /// [`ReprTree::get_view`] instead).
    pub fn singleton_buffer(&mut self, ladder: &TypeTerm) -> (r: LeafValue)
        requires
            spec_view_value(
                old(self)@,
                lnf_model(ladder@),
                old(self)@.edges.len() as nat,
            ) is Some,
        ensures
            spec_view_value(old(self)@, lnf_model(ladder@), old(self)@.edges.len() as nat)
                == Some(r@),
            final(self)@ == spec_write_leaf(old(self)@, lnf_model(ladder@), 0, r@, false),
    {
        let rungs = ladder.get_lnf_vec();
        let viewfuel: usize = self.edges.len();
        proof {
            lemma_edges_model(self.edges@);
        }
        let v = self.view_path(&rungs, viewfuel).unwrap();
        let copy = v.clone();
        self.write_leaf(&rungs, 0, v, false);
        copy
    }

    /// Materializes the buffer of a list-shaped leaf; the same
    /// operation as [`ReprTree::singleton_buffer`].
    pub fn vec_buffer(&mut self, ladder: &TypeTerm) -> (r: LeafValue)
        requires
            spec_view_value(
                old(self)@,
                lnf_model(ladder@),
                old(self)@.edges.len() as nat,
            ) is Some,
        ensures
            spec_view_value(old(self)@, lnf_model(ladder@), old(self)@.edges.len() as nat)
                == Some(r@),
            final(self)@ == spec_write_leaf(old(self)@, lnf_model(ladder@), 0, r@, false),
    {
        self.singleton_buffer(ladder)
    }

    /// The full ladder types of every leaf reachable from this node:
    /// the node's own type where it holds a leaf, and each deeper
    /// leaf's type extended upward by the types on the way, rung by
    /// rung and normalized.
    #[verifier::loop_isolation(false)]
    pub fn get_leaf_types(&self) -> (r: Vec<TypeTerm>)
        ensures
            crate::term::seq_model(r@) == spec_leaf_types(self@),
        decreases self,
    {
        let ghost own: Seq<TermModel> = if self@.leaf is Some {
            seq![self@.tag]
        } else {
            Seq::empty()
        };
        let mut out: Vec<TypeTerm> = Vec::new();
        if self.leaf.is_some() {
            let t = self.type_tag.clone();
            out.push(t);
        }
        proof {
            lemma_seq_model(out@);
            lemma_trees_model(self.branches@);
            assert(crate::term::seq_model(out@) =~= own);
            assert(self@.branches.subrange(0, 0) =~= Seq::<TreeModel>::empty());
            assert(crate::term::seq_model(out@) =~= own + spec_leaf_types_seq(
                self@.branches.subrange(0, 0),
                self@.tag,
            ));
        }
        let n: usize = self.branches.len();
        let mut i: usize = 0;
        while i < n
            invariant
                i <= n,
                n == self.branches@.len(),
                crate::term::seq_model(out@) == own + spec_leaf_types_seq(
                    self@.branches.subrange(0, i as int),
                    self@.tag,
                ),
            decreases n - i,
        {
            proof {
                assert(decreases_to!(*self => self.branches));
                assert(decreases_to!(self.branches => self.branches@));
                assert(decreases_to!(self.branches@ => self.branches@[i as int]));
            }
            let sub = self.branches[i].get_leaf_types();
            let ghost subm = crate::term::seq_model(sub@);
            proof {
                lemma_seq_model(sub@);
                lemma_trees_model(self.branches@);
                assert(subm == spec_leaf_types(self@.branches[i as int]));
            }
            let m: usize = sub.len();
            let mut j: usize = 0;
            while j < m
                invariant
                    j <= m,
                    m == sub@.len(),
                    crate::term::seq_model(out@) == own + spec_leaf_types_seq(
                        self@.branches.subrange(0, i as int),
                        self@.tag,
                    ) + spec_prefix_types(self@.tag, subm.subrange(0, j as int)),
                decreases m - j,
            {
                let pair = vec![self.type_tag.clone(), sub[j].clone()];
                let ghost pv = pair@;
                let ext = TypeTerm::Ladder(pair).normalize();
                proof {
                    lemma_seq_model(pv);
                    assert(crate::term::seq_model(pv) =~= seq![self@.tag, subm[j as int]]);
                    assert(ext@ == normalize_model(
                        TermModel::Ladder(seq![self@.tag, subm[j as int]]),
                    ));
                }
                let ghost out_pre = out@;
                out.push(ext);
                proof {
                    lemma_seq_model(out@);
                    lemma_seq_model(out_pre);
                    lemma_prefix_types(self@.tag, subm.subrange(0, j as int + 1));
                    lemma_prefix_types(self@.tag, subm.subrange(0, j as int));
                    assert(subm.subrange(0, j as int + 1).subrange(0, j as int) =~= subm.subrange(
                        0,
                        j as int,
                    ));
                    assert forall|k: int|
                        0 <= k < out@.len() implies crate::term::seq_model(out@)[k] == (own
                        + spec_leaf_types_seq(self@.branches.subrange(0, i as int), self@.tag)
                        + spec_prefix_types(self@.tag, subm.subrange(0, j as int + 1)))[k] by {
                        if k < out_pre.len() {
                            assert(crate::term::seq_model(out@)[k] == crate::term::seq_model(
                                out_pre,
                            )[k]);
                        } else {
                            assert(crate::term::seq_model(out@)[k] == ext@);
                            assert(subm.subrange(0, j as int + 1)[j as int] == subm[j as int]);
                        }
                    }
                    assert(crate::term::seq_model(out@) =~= own + spec_leaf_types_seq(
                        self@.branches.subrange(0, i as int),
                        self@.tag,
                    ) + spec_prefix_types(self@.tag, subm.subrange(0, j as int + 1)));
                }
                j = j + 1;
            }
            proof {
                assert(subm.subrange(0, m as int) =~= subm);
                lemma_leaf_types_seq_snoc(self@.branches.subrange(0, i as int + 1), self@.tag);
                assert(self@.branches.subrange(0, i as int + 1).subrange(0, i as int)
                    =~= self@.branches.subrange(0, i as int));
                assert(self@.branches.subrange(0, i as int + 1)[i as int] == self@.branches[
                    i as int
                ]);
            }
            i = i + 1;
        }
        proof {
            assert(self@.branches.subrange(0, n as int) =~= self@.branches);
        }
        out
    }

    /// The value currently visible at the end of the ladder.
    pub fn get_view(&self, ladder: &TypeTerm) -> (r: Option<LeafValue>)
        ensures
            match r {
                Some(v) => spec_view_value(self@, lnf_model(ladder@), self@.edges.len() as nat)
                    == Some(v@),
                None => spec_view_value(self@, lnf_model(ladder@), self@.edges.len() as nat)
                    is None,
            },
    {
        let rungs = ladder.get_lnf_vec();
        let viewfuel: usize = self.edges.len();
        proof {
            lemma_edges_model(self.edges@);
        }
        self.view_path(&rungs, viewfuel)
    }

    /// The character visible at the end of the ladder.  A caller must
    /// know a character is visible there; asking for a typed view of a
    /// missing or differently shaped representation is a wiring error,
    /// not a recoverable condition (probe with [`ReprTree::get_view`]
    /// instead).
    pub fn view_char(&self, ladder: &TypeTerm) -> (r: char)
        requires
            spec_view_value(self@, lnf_model(ladder@), self@.edges.len() as nat) matches Some(v)
                && v is Char,
        ensures
            spec_view_value(self@, lnf_model(ladder@), self@.edges.len() as nat) == Some(
                ValueModel::Char(r),
            ),
    {
        let v = self.get_view(ladder).unwrap();
        v.as_char().unwrap()
    }

    /// The byte visible at the end of the ladder; as
    /// [`ReprTree::view_char`], the caller must know one is there.
    pub fn view_u8(&self, ladder: &TypeTerm) -> (r: u8)
        requires
            spec_view_value(self@, lnf_model(ladder@), self@.edges.len() as nat) matches Some(v)
                && v is U8,
        ensures
            spec_view_value(self@, lnf_model(ladder@), self@.edges.len() as nat) == Some(
                ValueModel::U8(r),
            ),
    {
        let v = self.get_view(ladder).unwrap();
        v.as_u8().unwrap()
    }

    /// The machine word visible at the end of the ladder; as
    /// [`ReprTree::view_char`], the caller must know one is there.
    pub fn view_usize(&self, ladder: &TypeTerm) -> (r: usize)
        requires
            spec_view_value(self@, lnf_model(ladder@), self@.edges.len() as nat) matches Some(v)
                && v is USize,
        ensures
            spec_view_value(self@, lnf_model(ladder@), self@.edges.len() as nat) == Some(
                ValueModel::USize(r),
            ),
    {
        let v = self.get_view(ladder).unwrap();
        v.as_usize().unwrap()
    }

    /// The machine integer visible at the end of the ladder; as
    /// [`ReprTree::view_char`], the caller must know one is there.
    pub fn view_u64(&self, ladder: &TypeTerm) -> (r: u64)
        requires
            spec_view_value(self@, lnf_model(ladder@), self@.edges.len() as nat) matches Some(v)
                && v is U64,
        ensures
            spec_view_value(self@, lnf_model(ladder@), self@.edges.len() as nat) == Some(
                ValueModel::U64(r),
            ),
    {
        let v = self.get_view(ladder).unwrap();
        v.as_u64().unwrap()
    }
}

/// Whether `tags` holds a term equal to `tag`.
#[verifier::loop_isolation(false)]
pub fn contains_term(tags: &Vec<TypeTerm>, tag: &TypeTerm) -> (r: bool)
    ensures
        r == crate::term::seq_model(tags@).contains(tag@),
{
    proof {
        lemma_seq_model(tags@);
    }
    let n: usize = tags.len();
    let mut i: usize = 0;
    while i < n
        invariant
            n == tags.len(),
            i <= n,
            forall|j: int| 0 <= j < i ==> crate::term::seq_model(tags@)[j] != tag@,
        decreases n - i,
    {
        if tags[i] == *tag {
            proof {
                assert(crate::term::seq_model(tags@)[i as int] == tag@);
            }
            return true;
        }
        proof {
            lemma_seq_model(tags@);
        }
        i = i + 1;
    }
    proof {
        assert(!crate::term::seq_model(tags@).contains(tag@)) by {
            if crate::term::seq_model(tags@).contains(tag@) {
                let k = choose|k: int| 0 <= k < crate::term::seq_model(tags@).len() && crate::term::seq_model(tags@)[k] == tag@;
                assert(false);
            }
        }
    }
    false
}

} // verus!
