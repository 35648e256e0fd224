//! The documentation tree: one node per source file, nested by path depth,
//! each carrying the file's items keyed by name.

use crate::doctree::{DocItem, DocItemV};
use crate::keyed;
use crate::location::{
    depth_of, dirname_of, file_name_of, file_stem_of, rel_depth_of, FileUri,
};
use crate::strutil;
use vstd::prelude::*;
use vstd::string::*;

verus! {

broadcast use vstd::seq::axiom_seq_index_decreases, vstd::seq::axiom_seq_subrange_decreases, vstd::std_specs::vec::axiom_vec_index_decreases, vstd::std_specs::vec::axiom_vec_decreases_to_view;

/// One file of the documentation tree: its identifier, the files nested
/// under it, and its items, keyed by name.
#[derive(Debug, PartialEq)]
pub struct MetaFile {
    pub uri: FileUri,
    pub children: Vec<MetaFile>,
    pub items: Vec<DocItem>,
}

/// Mathematical model of a `MetaFile`.
pub ghost struct MetaFileView {
    pub uri: Seq<char>,
    pub children: Seq<MetaFileView>,
    pub items: Seq<DocItemV>,
}

/// The model of a tree node: each child modelled in place.
pub open spec fn meta_view(m: MetaFile) -> MetaFileView
    decreases m, 1nat,
{
    MetaFileView {
        uri: m.uri@,
        children: forest_view_upto(m.children, m.children@.len() as int),
        items: m.items.deep_view(),
    }
}

/// The models of the first `n` trees of a forest, in order.
pub open spec fn forest_view_upto(v: Vec<MetaFile>, n: int) -> Seq<MetaFileView>
    decreases v, 0nat, n,
{
    if n <= 0 || n > v@.len() {
        Seq::<MetaFileView>::empty()
    } else {
        forest_view_upto(v, n - 1).push(meta_view(v[n - 1]))
    }
}

/// Each modelled tree of a forest sits at its own index.
pub proof fn lemma_forest_view_upto(v: Vec<MetaFile>, n: int)
    requires
        0 <= n <= v@.len(),
    ensures
        forest_view_upto(v, n).len() == n,
        forall|i: int| 0 <= i < n ==> forest_view_upto(v, n)[i] == meta_view(v[i]),
    decreases n,
{
    if n > 0 {
        lemma_forest_view_upto(v, n - 1);
    }
}

/// A node's modelled children are the deep view of its child vector.
pub proof fn lemma_children_view(v: Vec<MetaFile>)
    ensures
        forest_view_upto(v, v@.len() as int) =~= v.deep_view(),
{
    lemma_forest_view_upto(v, v@.len() as int);
    assert forall|i: int|
        0 <= i < v@.len() implies forest_view_upto(v, v@.len() as int)[i] == v.deep_view()[i] by {
        assert(v.deep_view()[i] == v@[i].deep_view());
    }
}

impl View for MetaFile {
    type V = MetaFileView;

    open spec fn view(&self) -> MetaFileView {
        meta_view(*self)
    }
}

impl DeepView for MetaFile {
    type V = MetaFileView;

    open spec fn deep_view(&self) -> MetaFileView {
        self.view()
    }
}

/// The name an item is keyed by.
pub open spec fn doc_item_key() -> spec_fn(DocItemV) -> Seq<char> {
    |it: DocItemV| it.name
}

impl MetaFile {
    /// A tree node for one file, with no children and no items yet.
    pub fn new(uri: FileUri) -> (r: Self)
        ensures
            r@.uri == uri@,
            r@.children == Seq::<MetaFileView>::empty(),
            r@.items == Seq::<DocItemV>::empty(),
    {
        let children: Vec<MetaFile> = Vec::new();
        let items: Vec<DocItem> = Vec::new();
        let r = Self { uri, children, items };
        proof {
            assert(r@.children =~= Seq::<MetaFileView>::empty());
            assert(r@.items =~= Seq::<DocItemV>::empty());
        }
        r
    }

    /// Write an item under its name; a later item with the same name
    /// silently replaces an earlier one.
    pub fn add_item(&mut self, item: DocItem)
        ensures
            final(self)@.uri == old(self)@.uri,
            final(self)@.children == old(self)@.children,
            final(self)@.items == keyed::upsert_by(old(self)@.items, doc_item_key(), item@),
    {
        let ghost orig = self.items.deep_view();
        let mut i: usize = 0;
        while i < self.items.len()
            invariant
                orig == old(self)@.items,
                self@ == old(self)@,
                i <= orig.len(),
                forall|k: int| 0 <= k < i ==> doc_item_key()(orig[k]) != item@.name,
            decreases self.items.len() - i,
        {
            if strutil::str_eq(self.items[i].name.as_str(), item.name.as_str()) {
                proof {
                    assert(doc_item_key()(orig[i as int]) == orig[i as int].name);
                    assert(doc_item_key()(item@) == item@.name);
                    keyed::lemma_index_by_at(orig, doc_item_key(), item@.name, i as int);
                }
                self.items.remove(i);
                self.items.insert(i, item);
                proof {
                    assert(self.items.deep_view() =~= orig.update(i as int, item@));
                    assert(final(self)@.children =~= old(self)@.children);
                }
                return ;
            }
            proof {
                assert(doc_item_key()(orig[i as int]) == orig[i as int].name);
            }
            i += 1;
        }
        proof {
            assert(doc_item_key()(item@) == item@.name);
            keyed::lemma_index_by_none(orig, doc_item_key(), item@.name);
        }
        self.items.push(item);
        proof {
            assert(self.items.deep_view() =~= orig.push(item@));
            assert(final(self)@.children =~= old(self)@.children);
        }
    }
}

/// The number of nodes in a tree, the node itself included.
pub open spec fn meta_size(m: MetaFileView) -> nat
    decreases m,
{
    1 + forest_size(m.children)
}

/// The number of nodes in a forest.
pub open spec fn forest_size(s: Seq<MetaFileView>) -> nat
    decreases s,
{
    if s.len() == 0 {
        0
    } else {
        meta_size(s[0]) + forest_size(s.drop_first())
    }
}

/// Every tree of a forest counts no more nodes than the whole forest.
pub proof fn lemma_forest_size_element(s: Seq<MetaFileView>, i: int)
    requires
        0 <= i < s.len(),
    ensures
        meta_size(s[i]) <= forest_size(s),
    decreases s.len(),
{
    if i > 0 {
        lemma_forest_size_element(s.drop_first(), i - 1);
        assert(s.drop_first()[i - 1] == s[i]);
    }
}

/// Whether `node` is the parent file of `cand`: one path level higher, with
/// a file stem equal to the name of the directory holding `cand`.
pub open spec fn parent_match(node: MetaFileView, cand: MetaFileView) -> bool {
    depth_of(node.uri) == depth_of(cand.uri) - 1 && file_stem_of(node.uri) == dirname_or_empty(
        cand.uri,
    )
}

/// The name of the directory holding the file, or empty without one.
pub open spec fn dirname_or_empty(path: Seq<char>) -> Seq<char> {
    match dirname_of(path) {
        Some(d) => d,
        None => Seq::<char>::empty(),
    }
}

/// `cand` attached under the first matching node of the tree rooted at
/// `node`, depth-first; the flag says whether a match was found.
pub open spec fn spec_attach_node(node: MetaFileView, cand: MetaFileView) -> (
    MetaFileView,
    bool,
)
    decreases node,
{
    if parent_match(node, cand) {
        (MetaFileView { children: node.children.push(cand), ..node }, true)
    } else {
        let r = spec_attach_forest(node.children, cand);
        (MetaFileView { children: r.0, ..node }, r.1)
    }
}

/// `cand` attached under the first matching node of the forest, trees in
/// order, each searched depth-first; the flag says whether a match was
/// found.
pub open spec fn spec_attach_forest(forest: Seq<MetaFileView>, cand: MetaFileView) -> (
    Seq<MetaFileView>,
    bool,
)
    decreases forest,
{
    if forest.len() == 0 {
        (forest, false)
    } else {
        let r = spec_attach_node(forest[0], cand);
        if r.1 {
            (seq![r.0] + forest.drop_first(), true)
        } else {
            let rr = spec_attach_forest(forest.drop_first(), cand);
            (seq![forest[0]] + rr.0, rr.1)
        }
    }
}

/// A tree without a match is left unchanged.
pub proof fn lemma_attach_node_no_match(node: MetaFileView, cand: MetaFileView)
    requires
        !spec_attach_node(node, cand).1,
    ensures
        spec_attach_node(node, cand).0 == node,
    decreases node,
{
    lemma_attach_forest_no_match(node.children, cand);
}

/// A forest without a match is left unchanged.
pub proof fn lemma_attach_forest_no_match(forest: Seq<MetaFileView>, cand: MetaFileView)
    requires
        !spec_attach_forest(forest, cand).1,
    ensures
        spec_attach_forest(forest, cand).0 == forest,
    decreases forest,
{
    if forest.len() > 0 {
        lemma_attach_node_no_match(forest[0], cand);
        lemma_attach_forest_no_match(forest.drop_first(), cand);
        assert(spec_attach_forest(forest, cand).0 =~= forest);
    }
}

/// With no match among the first `i` trees, attachment is decided by the
/// tree at `i`, or fails at the end of the forest.
pub proof fn lemma_attach_forest_at(forest: Seq<MetaFileView>, cand: MetaFileView, i: int)
    requires
        0 <= i <= forest.len(),
        forall|k: int| 0 <= k < i ==> !spec_attach_node(#[trigger] forest[k], cand).1,
    ensures
        i == forest.len() ==> spec_attach_forest(forest, cand) == (forest, false),
        i < forest.len() && spec_attach_node(forest[i], cand).1 ==> spec_attach_forest(
            forest,
            cand,
        ) == (forest.update(i, spec_attach_node(forest[i], cand).0), true),
    decreases forest.len(),
{
    if forest.len() == 0 {
        assert(spec_attach_forest(forest, cand) == (forest, false));
    } else if i == 0 {
        if spec_attach_node(forest[0], cand).1 {
            assert(seq![spec_attach_node(forest[0], cand).0] + forest.drop_first()
                =~= forest.update(0, spec_attach_node(forest[0], cand).0));
        }
    } else {
        assert(!spec_attach_node(forest[0], cand).1);
        lemma_attach_node_no_match(forest[0], cand);
        assert forall|k: int|
            0 <= k < i - 1 implies !spec_attach_node(
            #[trigger] forest.drop_first()[k],
            cand,
        ).1 by {
            assert(forest.drop_first()[k] == forest[k + 1]);
        }
        lemma_attach_forest_at(forest.drop_first(), cand, i - 1);
        if i == forest.len() {
            lemma_attach_forest_no_match(forest.drop_first(), cand);
            assert(seq![forest[0]] + forest.drop_first() =~= forest);
        } else {
            assert(forest.drop_first()[i - 1] == forest[i]);
            if spec_attach_node(forest[i], cand).1 {
                assert(seq![forest[0]] + forest.drop_first().update(
                    i - 1,
                    spec_attach_node(forest[i], cand).0,
                ) =~= forest.update(i, spec_attach_node(forest[i], cand).0));
            }
        }
    }
}

/// Attach `cand` under the first node of the tree at `node`, depth-first,
/// whose file is one level higher and whose stem names `cand`'s directory.
/// Gives `cand` back when no node matches; see [`spec_attach_node`].
fn attach_node(node: &mut MetaFile, cand: MetaFile) -> (r: Option<MetaFile>)
    ensures
        final(node)@ == spec_attach_node(old(node)@, cand@).0,
        r is None <==> spec_attach_node(old(node)@, cand@).1,
        r matches Some(c) ==> c == cand,
    decreases meta_size(node@), 0nat,
{
    let cd = cand.uri.depth();
    let nd = node.uri.depth();
    let stem = node.uri.file_stem();
    let dn = match cand.uri.dirname() {
        Some(d) => d,
        None => String::new(),
    };
    if cd > 0 && nd == cd - 1 && strutil::str_eq(stem.as_str(), dn.as_str()) {
        let ghost pre = node@;
        self_children_push(node, cand);
        return None;
    }
    proof {
        assert(forest_size(node@.children) < meta_size(node@));
        lemma_children_view(node.children);
        assert(node.children.deep_view() =~= node@.children);
    }
    let r = attach_forest(&mut node.children, cand);
    proof {
        lemma_children_view(node.children);
        assert(final(node)@.children =~= spec_attach_node(old(node)@, cand@).0.children);
    }
    r
}

/// Append `cand` to the node's children.
fn self_children_push(node: &mut MetaFile, cand: MetaFile)
    ensures
        final(node)@ == (MetaFileView {
            children: old(node)@.children.push(cand@),
            ..old(node)@
        }),
{
    let ghost cv = cand@;
    node.children.push(cand);
    proof {
        lemma_children_view(node.children);
        lemma_children_view(old(node).children);
        assert(node.children.deep_view() =~= old(node).children.deep_view().push(cv));
        assert(final(node)@.children =~= old(node)@.children.push(cv));
    }
}

/// Attach `cand` under the first matching node of the forest, trees in
/// order; gives `cand` back when no node matches; see
/// [`spec_attach_forest`].
fn attach_forest(forest: &mut Vec<MetaFile>, cand: MetaFile) -> (r: Option<MetaFile>)
    ensures
        final(forest).deep_view() == spec_attach_forest(old(forest).deep_view(), cand@).0,
        r is None <==> spec_attach_forest(old(forest).deep_view(), cand@).1,
        r matches Some(c) ==> c == cand,
    decreases forest_size(forest.deep_view()), 1nat,
{
    let ghost f0 = forest.deep_view();
    let ghost cv = cand@;
    let mut c = cand;
    let mut i: usize = 0;
    while i < forest.len()
        invariant
            f0 == old(forest).deep_view(),
            forest.deep_view() == f0,
            cv == c@,
            c == cand,
            i <= f0.len(),
            forall|k: int| 0 <= k < i ==> !spec_attach_node(#[trigger] f0[k], cv).1,
        decreases f0.len() - i,
    {
        let ghost pre = forest.deep_view();
        let mut node = forest.remove(i);
        proof {
            assert(node@ == f0[i as int]);
            lemma_forest_size_element(f0, i as int);
        }
        let r = attach_node(&mut node, c);
        let ghost nodev = node@;
        forest.insert(i, node);
        match r {
            None => {
                proof {
                    assert(nodev == spec_attach_node(f0[i as int], cv).0);
                    lemma_attach_forest_at(f0, cv, i as int);
                    assert(forest.deep_view() =~= f0.update(i as int, nodev));
                }
                return None;
            },
            Some(cc) => {
                proof {
                    lemma_attach_node_no_match(f0[i as int], cv);
                    assert(nodev == f0[i as int]);
                    assert(forest.deep_view() =~= f0);
                }
                c = cc;
            },
        }
        i += 1;
    }
    proof {
        lemma_attach_forest_at(f0, cv, f0.len() as int);
    }
    Some(c)
}

/// An ordered forest of file nodes: the documentation tree.
#[derive(Debug, PartialEq)]
pub struct DocTree(pub Vec<MetaFile>);

impl View for DocTree {
    type V = Seq<MetaFileView>;

    open spec fn view(&self) -> Seq<MetaFileView> {
        self.0.deep_view()
    }
}

impl DocTree {
    /// An empty tree.
    pub fn new() -> (r: Self)
        ensures
            r@ == Seq::<MetaFileView>::empty(),
    {
        let roots: Vec<MetaFile> = Vec::new();
        proof {
            assert(roots.deep_view() =~= Seq::<MetaFileView>::empty());
        }
        Self(roots)
    }

    /// Append a top-level node.
    pub fn add_item(&mut self, item: MetaFile)
        ensures
            final(self)@ == old(self)@.push(item@),
    {
        let ghost iv = item@;
        self.0.push(item);
        proof {
            assert(self.0.deep_view() =~= old(self)@.push(iv));
        }
    }
}

impl Default for DocTree {
    fn default() -> (r: Self)
        ensures
            r@ == Seq::<MetaFileView>::empty(),
    {
        DocTree::new()
    }
}

/// The order files enter the tree in: ascending by depth relative to the
/// root, then by file name in code-point order.
pub open spec fn meta_le(root: Seq<char>, a: MetaFileView, b: MetaFileView) -> bool {
    rel_depth_of(a.uri, root) < rel_depth_of(b.uri, root) || (rel_depth_of(a.uri, root)
        == rel_depth_of(b.uri, root) && strutil::seq_char_le(
        file_name_of(a.uri),
        file_name_of(b.uri),
    ))
}

/// Whether `a` enters the tree no later than `b`; see [`meta_le`].
fn meta_le_exec(root: &FileUri, a: &MetaFile, b: &MetaFile) -> (r: bool)
    ensures
        r == meta_le(root@, a@, b@),
{
    let da = a.uri.relative_depth(root);
    let db = b.uri.relative_depth(root);
    if da < db {
        true
    } else if da > db {
        false
    } else {
        let na = a.uri.file_name();
        let nb = b.uri.file_name();
        strutil::str_le(na.as_str(), nb.as_str())
    }
}

/// `m` inserted into the already-sorted `s`, after every node that enters no
/// later than it.
pub open spec fn spec_insert_meta(root: Seq<char>, s: Seq<MetaFileView>, m: MetaFileView) -> Seq<
    MetaFileView,
>
    decreases s.len(),
{
    if s.len() == 0 {
        seq![m]
    } else if meta_le(root, s.last(), m) {
        s.push(m)
    } else {
        spec_insert_meta(root, s.drop_last(), m).push(s.last())
    }
}

/// The nodes sorted by [`meta_le`], stably: insertion sort from the front.
pub open spec fn spec_sort_metas(root: Seq<char>, s: Seq<MetaFileView>) -> Seq<MetaFileView>
    decreases s.len(),
{
    if s.len() == 0 {
        s
    } else {
        spec_insert_meta(root, spec_sort_metas(root, s.drop_last()), s.last())
    }
}

/// Insert `m` before the first node from the back that does not enter no
/// later than it; see [`spec_insert_meta`].
fn insert_sorted_meta(root: &FileUri, out: &mut Vec<MetaFile>, m: MetaFile)
    ensures
        final(out).deep_view() == spec_insert_meta(root@, old(out).deep_view(), m@),
{
    let ghost out0 = out.deep_view();
    let ghost mv = m@;
    let mut j: usize = out.len();
    proof {
        assert(out0.take(out0.len() as int) =~= out0);
        assert(out0.skip(out0.len() as int) =~= Seq::<MetaFileView>::empty());
        assert(spec_insert_meta(root@, out0, mv) + out0.skip(out0.len() as int)
            =~= spec_insert_meta(root@, out0, mv));
    }
    while j > 0 && !meta_le_exec(root, &out[j - 1], &m)
        invariant
            j <= out.len(),
            out0 == old(out).deep_view(),
            out.deep_view() == out0,
            mv == m@,
            spec_insert_meta(root@, out0, mv) == spec_insert_meta(root@, out0.take(j as int), mv)
                + out0.skip(j as int),
        decreases j,
    {
        proof {
            assert(out0.take(j as int).last() == out0[j - 1]);
            assert(out0.take(j as int).drop_last() =~= out0.take(j - 1));
            assert(out0.skip(j - 1) =~= seq![out0[j - 1]] + out0.skip(j as int));
            assert(spec_insert_meta(root@, out0.take(j - 1), mv).push(out0[j - 1]) + out0.skip(
                j as int,
            ) =~= spec_insert_meta(root@, out0.take(j - 1), mv) + out0.skip(j - 1));
        }
        j -= 1;
    }
    proof {
        if j > 0 {
            assert(out0.take(j as int).last() == out0[j - 1]);
            assert(spec_insert_meta(root@, out0.take(j as int), mv) == out0.take(j as int).push(
                mv,
            ));
        } else {
            assert(out0.take(0).len() == 0);
            assert(spec_insert_meta(root@, out0.take(0), mv) =~= out0.take(0).push(mv));
        }
    }
    out.insert(j, m);
    proof {
        assert(out.deep_view() =~= out0.take(j as int).push(mv) + out0.skip(j as int));
    }
}

/// The nodes in the order the tree is built in; see [`spec_sort_metas`].
fn sort_metas(root: &FileUri, metas: Vec<MetaFile>) -> (r: Vec<MetaFile>)
    ensures
        r.deep_view() == spec_sort_metas(root@, metas.deep_view()),
{
    let ghost m0 = metas.deep_view();
    let mut metas = metas;
    let mut out: Vec<MetaFile> = Vec::new();
    proof {
        assert(out.deep_view() =~= spec_sort_metas(root@, m0.take(0)));
        assert(metas.deep_view() =~= m0.skip(0));
    }
    while metas.len() > 0
        invariant
            metas.len() <= m0.len(),
            metas.deep_view() == m0.skip(m0.len() - metas.len()),
            out.deep_view() == spec_sort_metas(root@, m0.take(m0.len() - metas.len())),
        decreases metas.len(),
    {
        let ghost i = m0.len() - metas.deep_view().len();
        let ghost pre = metas.deep_view();
        let x = metas.remove(0);
        proof {
            assert(pre == m0.skip(i));
            assert(x@ == pre[0]);
            assert(pre[0] == m0[i]);
            assert(metas.deep_view() =~= pre.drop_first());
            assert(pre.drop_first() =~= m0.skip(i + 1));
        }
        insert_sorted_meta(root, &mut out, x);
        proof {
            assert(m0.take(i + 1).drop_last() =~= m0.take(i));
            assert(m0.take(i + 1).last() == m0[i]);
        }
    }
    proof {
        assert(m0.take(m0.len() as int) =~= m0);
    }
    out
}

/// One sorted node placed into the tree: a direct child of the root becomes
/// a new top-level node; any other file is attached under the first node,
/// depth-first over the tree built so far, whose file sits one level higher
/// and whose stem names the file's directory — or is silently dropped when
/// no such node exists yet.
pub open spec fn spec_place_one(tree: Seq<MetaFileView>, root: Seq<char>, m: MetaFileView) -> Seq<
    MetaFileView,
> {
    if rel_depth_of(m.uri, root) == 1 {
        tree.push(m)
    } else {
        spec_attach_forest(tree, m).0
    }
}

/// All nodes placed in order.
pub open spec fn spec_place_all(
    tree: Seq<MetaFileView>,
    root: Seq<char>,
    metas: Seq<MetaFileView>,
) -> Seq<MetaFileView>
    decreases metas.len(),
{
    if metas.len() == 0 {
        tree
    } else {
        spec_place_one(spec_place_all(tree, root, metas.drop_last()), root, metas.last())
    }
}

/// The whole tree built from per-file nodes: nodes sorted by relative depth
/// and name, then placed in order.
pub open spec fn spec_build_tree(root: Seq<char>, metas: Seq<MetaFileView>) -> Seq<MetaFileView> {
    spec_place_all(
        Seq::<MetaFileView>::empty(),
        root,
        spec_sort_metas(root, metas),
    )
}

/// Nest the per-file nodes into a tree by path depth; see
/// [`spec_build_tree`].
pub fn build_tree(root: &FileUri, meta_files: Vec<MetaFile>) -> (r: DocTree)
    ensures
        r@ == spec_build_tree(root@, meta_files.deep_view()),
{
    let mut sorted = sort_metas(root, meta_files);
    let ghost s0 = sorted.deep_view();
    let mut tree = DocTree::new();
    proof {
        assert(tree@ =~= spec_place_all(Seq::<MetaFileView>::empty(), root@, s0.take(0)));
        assert(sorted.deep_view() =~= s0.skip(0));
    }
    while sorted.len() > 0
        invariant
            sorted.len() <= s0.len(),
            sorted.deep_view() == s0.skip(s0.len() - sorted.len()),
            tree@ == spec_place_all(Seq::<MetaFileView>::empty(), root@, s0.take(
                s0.len() - sorted.len(),
            )),
        decreases sorted.len(),
    {
        let ghost i = s0.len() - sorted.deep_view().len();
        let ghost pre = sorted.deep_view();
        let m = sorted.remove(0);
        proof {
            assert(pre == s0.skip(i));
            assert(m@ == pre[0]);
            assert(pre[0] == s0[i]);
            assert(sorted.deep_view() =~= pre.drop_first());
            assert(pre.drop_first() =~= s0.skip(i + 1));
        }
        if m.uri.relative_depth(root) == 1 {
            tree.add_item(m);
        } else {
            // A node given back found no parent in the tree built so far:
            // the file is silently dropped and never becomes reachable.
            let _unparented = attach_forest(&mut tree.0, m);
        }
        proof {
            assert(s0.take(i + 1).drop_last() =~= s0.take(i));
            assert(s0.take(i + 1).last() == s0[i]);
        }
    }
    proof {
        assert(s0.take(s0.len() as int) =~= s0);
    }
    tree
}

} // verus!
