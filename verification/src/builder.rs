//! The whole build: each file's definitions run through the pass sequence,
//! and the per-file results nest into the documentation tree. Also the
//! partition of a file's items by variant kind that rendering consumes.

use crate::doctree::{DocItem, DocItemV};
use crate::errors::{DocError, DocErrorView};
use crate::passes::{
    merge_class_tables, parse_items, parse_set_fields, parse_table_fields, source_file_wf,
    spec_merge_tables, spec_parse_items, spec_set_fields, spec_table_fields,
};
use crate::tree::{build_tree, spec_build_tree, DocTree, MetaFile, MetaFileView};
use crate::workspace::{
    file_le, spec_attach, spec_attach_one, spec_insert_file, spec_sort_files, SourceFileView,
    Workspace, WorkspaceView,
};
use vstd::prelude::*;

verus! {

/// Every definition of every file carries at least one define.
pub open spec fn workspace_wf(w: WorkspaceView) -> bool {
    forall|k: int| 0 <= k < w.files.len() ==> source_file_wf(#[trigger] w.files[k])
}

/// One file's node: its definitions parsed into items, members attached to
/// their owners, and redundant tables merged away; children arrive only when
/// the tree is built.
pub open spec fn spec_build_file(f: SourceFileView) -> Result<MetaFileView, DocErrorView> {
    match spec_parse_items(Seq::<DocItemV>::empty(), f.definitions) {
        Err(e) => Err(e),
        Ok(i1) => match spec_set_fields(i1, f.definitions) {
            Err(e) => Err(e),
            Ok(i2) => match spec_table_fields(i2, f.definitions) {
                Err(e) => Err(e),
                Ok(i3) => Ok(
                    MetaFileView {
                        uri: f.uri,
                        children: Seq::<MetaFileView>::empty(),
                        items: spec_merge_tables(i3),
                    },
                ),
            },
        },
    }
}

/// Every file's node, in order; the first fatal error aborts the batch.
pub open spec fn spec_build_files(files: Seq<SourceFileView>) -> Result<
    Seq<MetaFileView>,
    DocErrorView,
>
    decreases files.len(),
{
    if files.len() == 0 {
        Ok(Seq::<MetaFileView>::empty())
    } else {
        match spec_build_files(files.drop_last()) {
            Err(e) => Err(e),
            Ok(metas) => match spec_build_file(files.last()) {
                Err(e) => Err(e),
                Ok(m) => Ok(metas.push(m)),
            },
        }
    }
}

proof fn lemma_build_files_err_persists(files: Seq<SourceFileView>, i: int)
    requires
        0 <= i <= files.len(),
        spec_build_files(files.take(i)) is Err,
    ensures
        spec_build_files(files) == spec_build_files(files.take(i)),
    decreases files.len() - i,
{
    if i < files.len() {
        assert(files.take(i + 1).drop_last() =~= files.take(i));
        lemma_build_files_err_persists(files, i + 1);
    } else {
        assert(files.take(i) =~= files);
    }
}

/// The whole build: files visited in build order, each file's node built by
/// the pass sequence, the nodes nested into a tree under the root.
pub open spec fn spec_build_docs(w: WorkspaceView) -> Result<Seq<MetaFileView>, DocErrorView> {
    match spec_build_files(spec_sort_files(w.files)) {
        Err(e) => Err(e),
        Ok(metas) => Ok(spec_build_tree(w.root, metas)),
    }
}

/// One successful pairing keeps every definition of every file non-empty:
/// a new file starts without definitions, and an attached copy keeps the
/// defines of its own file, of which there is at least one.
pub proof fn lemma_attach_one_wf(
    files: Seq<SourceFileView>,
    root: Seq<char>,
    d: crate::json::DefinitionView,
    uri: Seq<char>,
)
    requires
        forall|k: int| 0 <= k < files.len() ==> source_file_wf(#[trigger] files[k]),
        spec_attach_one(files, root, d, uri) is Ok,
    ensures
        forall|k: int|
            0 <= k < spec_attach_one(files, root, d, uri)->Ok_0.len() ==> source_file_wf(
                #[trigger] spec_attach_one(files, root, d, uri)->Ok_0[k],
            ),
{
    if root.is_prefix_of(uri) {
        let found = crate::keyed::index_by(files, crate::workspace::source_file_key(), uri);
        let fs = if found < 0 {
            files.push(crate::workspace::empty_source_file(uri))
        } else {
            files
        };
        let idx = if found < 0 {
            files.len() as int
        } else {
            found
        };
        assert forall|k: int| 0 <= k < fs.len() implies source_file_wf(#[trigger] fs[k]) by {
            if k < files.len() {
                assert(fs[k] == files[k]);
            }
        }
        crate::keyed::lemma_index_by(files, crate::workspace::source_file_key(), uri);
        let filtered = crate::workspace::defines_for_file(d.defines, uri);
        assert(filtered.len() > 0);
        let out = spec_attach_one(files, root, d, uri)->Ok_0;
        assert(out == fs.update(
            idx,
            SourceFileView {
                definitions: fs[idx].definitions.push(
                    crate::json::DefinitionView { defines: filtered, ..d },
                ),
                ..fs[idx]
            },
        ));
        assert forall|k: int| 0 <= k < out.len() implies source_file_wf(#[trigger] out[k]) by {
            if k != idx {
                assert(out[k] == fs[k]);
            } else {
                let defs = out[k].definitions;
                assert forall|q: int|
                    0 <= q < defs.len() implies (#[trigger] defs[q]).defines.len() >= 1 by {
                    if q < fs[idx].definitions.len() {
                        assert(defs[q] == fs[idx].definitions[q]);
                    } else {
                        assert(defs[q].defines == filtered);
                    }
                }
            }
        }
    }
}

/// A successful distribution of one definition keeps every file well-formed.
pub proof fn lemma_attach_wf(
    files: Seq<SourceFileView>,
    root: Seq<char>,
    d: crate::json::DefinitionView,
    uris: Seq<Seq<char>>,
)
    requires
        forall|k: int| 0 <= k < files.len() ==> source_file_wf(#[trigger] files[k]),
        spec_attach(files, root, d, uris) is Ok,
    ensures
        forall|k: int|
            0 <= k < spec_attach(files, root, d, uris)->Ok_0.len() ==> source_file_wf(
                #[trigger] spec_attach(files, root, d, uris)->Ok_0[k],
            ),
    decreases uris.len(),
{
    if uris.len() > 0 {
        lemma_attach_wf(files, root, d, uris.drop_last());
        lemma_attach_one_wf(
            spec_attach(files, root, d, uris.drop_last())->Ok_0,
            root,
            d,
            uris.last(),
        );
    }
}

/// A successful load keeps every file of the workspace well-formed: what
/// [`Workspace::load`] grew from well-formed files satisfies what
/// [`build_docs`] asks of its workspace.
pub proof fn lemma_load_gives_wf_files(
    files: Seq<SourceFileView>,
    root: Seq<char>,
    docs: Seq<crate::json::DefinitionView>,
)
    requires
        forall|k: int| 0 <= k < files.len() ==> source_file_wf(#[trigger] files[k]),
        crate::workspace::spec_load(files, root, docs) is Ok,
    ensures
        forall|k: int|
            0 <= k < crate::workspace::spec_load(files, root, docs)->Ok_0.len()
                ==> source_file_wf(
                #[trigger] crate::workspace::spec_load(files, root, docs)->Ok_0[k],
            ),
    decreases docs.len(),
{
    if docs.len() > 0 {
        lemma_load_gives_wf_files(files, root, docs.drop_last());
        lemma_attach_wf(
            crate::workspace::spec_load(files, root, docs.drop_last())->Ok_0,
            root,
            docs.last(),
            crate::workspace::unique_uris(docs.last().defines),
        );
    }
}

/// Inserting keeps only the files that were there, plus the inserted one.
proof fn lemma_insert_file_elements(s: Seq<SourceFileView>, f: SourceFileView)
    ensures
        forall|j: int|
            0 <= j < spec_insert_file(s, f).len() ==> (#[trigger] spec_insert_file(s, f)[j]) == f
                || s.contains(spec_insert_file(s, f)[j]),
    decreases s.len(),
{
    if s.len() > 0 && !file_le(s.last(), f) {
        lemma_insert_file_elements(s.drop_last(), f);
        assert forall|j: int|
            0 <= j < spec_insert_file(s, f).len() implies (#[trigger] spec_insert_file(s, f)[j])
            == f || s.contains(spec_insert_file(s, f)[j]) by {
            if j < spec_insert_file(s, f).len() - 1 {
                assert(spec_insert_file(s, f)[j] == spec_insert_file(s.drop_last(), f)[j]);
                if spec_insert_file(s.drop_last(), f)[j] != f {
                    let k = choose|k: int|
                        0 <= k < s.drop_last().len() && s.drop_last()[k] == spec_insert_file(
                            s.drop_last(),
                            f,
                        )[j];
                    assert(s[k] == spec_insert_file(s, f)[j]);
                }
            } else {
                assert(spec_insert_file(s, f)[j] == s.last());
                assert(s[s.len() - 1] == s.last());
            }
        }
    }
}

/// Sorting keeps exactly the files that were there.
proof fn lemma_sort_files_elements(s: Seq<SourceFileView>)
    ensures
        forall|j: int|
            0 <= j < spec_sort_files(s).len() ==> s.contains(#[trigger] spec_sort_files(s)[j]),
    decreases s.len(),
{
    if s.len() > 0 {
        lemma_sort_files_elements(s.drop_last());
        lemma_insert_file_elements(spec_sort_files(s.drop_last()), s.last());
        assert forall|j: int|
            0 <= j < spec_sort_files(s).len() implies s.contains(
            #[trigger] spec_sort_files(s)[j],
        ) by {
            let it = spec_sort_files(s)[j];
            if it == s.last() {
                assert(s[s.len() - 1] == it);
            } else {
                let k = choose|k: int|
                    0 <= k < spec_sort_files(s.drop_last()).len() && spec_sort_files(
                        s.drop_last(),
                    )[k] == it;
                let q = choose|q: int|
                    0 <= q < s.drop_last().len() && s.drop_last()[q] == spec_sort_files(
                        s.drop_last(),
                    )[k];
                assert(s[q] == it);
            }
        }
    }
}

/// Build the documentation tree for a whole workspace: run the pass sequence
/// over every file in build order, then nest the results by path depth; see
/// [`spec_build_docs`]. A workspace grown by [`Workspace::load`] from
/// well-formed files meets the requirement; see [`lemma_load_gives_wf_files`].
pub fn build_docs(workspace: Workspace) -> (r: Result<DocTree, DocError>)
    requires
        workspace_wf(workspace@),
    ensures
        match r {
            Ok(t) => spec_build_docs(workspace@) == Ok::<Seq<MetaFileView>, DocErrorView>(t@),
            Err(e) => spec_build_docs(workspace@) == Err::<Seq<MetaFileView>, DocErrorView>(e@),
        },
{
    let ghost w = workspace@;
    let root = workspace.root.duplicate();
    let mut sorted = workspace.sorted_files();
    let ghost sfv = sorted.deep_view();
    proof {
        lemma_sort_files_elements(w.files);
        assert forall|k: int| 0 <= k < sfv.len() implies source_file_wf(#[trigger] sfv[k]) by {
            let q = choose|q: int| 0 <= q < w.files.len() && w.files[q] == sfv[k];
        }
    }

    let mut meta_files: Vec<MetaFile> = Vec::new();
    proof {
        assert(meta_files.deep_view() =~= Seq::<MetaFileView>::empty());
        assert(spec_build_files(sfv.take(0)) == Ok::<Seq<MetaFileView>, DocErrorView>(
            meta_files.deep_view(),
        ));
        assert(sorted.deep_view() =~= sfv.skip(0));
    }
    while sorted.len() > 0
        invariant
            w == workspace@,
            root@ == w.root,
            sorted.len() <= sfv.len(),
            sorted.deep_view() == sfv.skip(sfv.len() - sorted.len()),
            sfv == spec_sort_files(w.files),
            forall|k: int| 0 <= k < sfv.len() ==> source_file_wf(#[trigger] sfv[k]),
            spec_build_files(sfv.take(sfv.len() - sorted.len())) == Ok::<
                Seq<MetaFileView>,
                DocErrorView,
            >(meta_files.deep_view()),
        decreases sorted.len(),
    {
        let ghost i = sfv.len() - sorted.deep_view().len();
        let ghost pre = sorted.deep_view();
        let source_file = sorted.remove(0);
        proof {
            assert(pre == sfv.skip(i));
            assert(source_file@ == pre[0]);
            assert(pre[0] == sfv[i]);
            assert(sorted.deep_view() =~= pre.drop_first());
            assert(pre.drop_first() =~= sfv.skip(i + 1));
            assert(sfv.take(i + 1).drop_last() =~= sfv.take(i));
            assert(sfv.take(i + 1).last() == sfv[i]);
        }
        let mut meta_file = MetaFile::new(source_file.uri.duplicate());

        let ghost metas0 = meta_files.deep_view();
        match parse_items(&mut meta_file, &source_file) {
            Ok(_) => {},
            Err(e) => {
                proof {
                    lemma_build_files_err_persists(sfv, i + 1);
                }
                return Err(e);
            },
        }
        match parse_set_fields(&mut meta_file, &source_file) {
            Ok(_) => {},
            Err(e) => {
                proof {
                    lemma_build_files_err_persists(sfv, i + 1);
                }
                return Err(e);
            },
        }
        match parse_table_fields(&mut meta_file, &source_file) {
            Ok(_) => {},
            Err(e) => {
                proof {
                    lemma_build_files_err_persists(sfv, i + 1);
                }
                return Err(e);
            },
        }
        match merge_class_tables(&mut meta_file, &source_file) {
            Ok(_) => {},
            Err(e) => {
                proof {
                    lemma_build_files_err_persists(sfv, i + 1);
                }
                return Err(e);
            },
        }
        proof {
            assert(spec_build_file(sfv[i]) == Ok::<MetaFileView, DocErrorView>(meta_file@));
        }
        let ghost mv = meta_file@;
        meta_files.push(meta_file);
        proof {
            assert(meta_files.deep_view() =~= metas0.push(mv));
        }
    }
    proof {
        assert(sfv.take(sfv.len() as int) =~= sfv);
    }

    let tree = build_tree(&root, meta_files);
    Ok(tree)
}

/// Items of a file that satisfy a selector, in order.
pub open spec fn items_where(items: Seq<DocItemV>, sel: spec_fn(DocItemV) -> bool) -> Seq<
    DocItemV,
>
    decreases items.len(),
{
    if items.len() == 0 {
        Seq::<DocItemV>::empty()
    } else {
        let rest = items_where(items.drop_last(), sel);
        if sel(items.last()) {
            rest.push(items.last())
        } else {
            rest
        }
    }
}

/// Selects class items.
pub open spec fn class_sel() -> spec_fn(DocItemV) -> bool {
    |it: DocItemV| it.inner is Class
}

/// Selects table items.
pub open spec fn table_sel() -> spec_fn(DocItemV) -> bool {
    |it: DocItemV| it.inner is Table
}

/// Selects type-alias items.
pub open spec fn type_alias_sel() -> spec_fn(DocItemV) -> bool {
    |it: DocItemV| it.inner is TypeAlias
}

/// Selects enum items.
pub open spec fn enum_sel() -> spec_fn(DocItemV) -> bool {
    |it: DocItemV| it.inner is Enum
}

/// Selects global items.
pub open spec fn global_sel() -> spec_fn(DocItemV) -> bool {
    |it: DocItemV| it.inner is Global
}

/// A file's items split by variant kind, each bucket keeping item order: the
/// shape the rendering layer consumes.
#[derive(Debug, PartialEq)]
pub struct ItemPartition {
    pub name: String,
    pub classes: Vec<DocItem>,
    pub tables: Vec<DocItem>,
    pub type_aliases: Vec<DocItem>,
    pub enums: Vec<DocItem>,
    pub globals: Vec<DocItem>,
}

/// Mathematical model of an `ItemPartition`.
pub ghost struct ItemPartitionView {
    pub name: Seq<char>,
    pub classes: Seq<DocItemV>,
    pub tables: Seq<DocItemV>,
    pub type_aliases: Seq<DocItemV>,
    pub enums: Seq<DocItemV>,
    pub globals: Seq<DocItemV>,
}

impl View for ItemPartition {
    type V = ItemPartitionView;

    open spec fn view(&self) -> ItemPartitionView {
        ItemPartitionView {
            name: self.name@,
            classes: self.classes.deep_view(),
            tables: self.tables.deep_view(),
            type_aliases: self.type_aliases.deep_view(),
            enums: self.enums.deep_view(),
            globals: self.globals.deep_view(),
        }
    }
}

impl ItemPartition {
    /// Split items by variant kind under a display name, keeping each
    /// bucket's items in their original order.
    pub fn from_items(name: String, items: Vec<DocItem>) -> (r: ItemPartition)
        ensures
            r@.name == name@,
            r@.classes == items_where(items.deep_view(), class_sel()),
            r@.tables == items_where(items.deep_view(), table_sel()),
            r@.type_aliases == items_where(items.deep_view(), type_alias_sel()),
            r@.enums == items_where(items.deep_view(), enum_sel()),
            r@.globals == items_where(items.deep_view(), global_sel()),
    {
        let ghost its0 = items.deep_view();
        let mut items = items;
        let mut classes: Vec<DocItem> = Vec::new();
        let mut tables: Vec<DocItem> = Vec::new();
        let mut type_aliases: Vec<DocItem> = Vec::new();
        let mut enums: Vec<DocItem> = Vec::new();
        let mut globals: Vec<DocItem> = Vec::new();
        proof {
            assert(classes.deep_view() =~= items_where(its0.take(0), class_sel()));
            assert(tables.deep_view() =~= items_where(its0.take(0), table_sel()));
            assert(type_aliases.deep_view() =~= items_where(its0.take(0), type_alias_sel()));
            assert(enums.deep_view() =~= items_where(its0.take(0), enum_sel()));
            assert(globals.deep_view() =~= items_where(its0.take(0), global_sel()));
            assert(items.deep_view() =~= its0.skip(0));
        }
        while items.len() > 0
            invariant
                items.len() <= its0.len(),
                items.deep_view() == its0.skip(its0.len() - items.len()),
                classes.deep_view() == items_where(
                    its0.take(its0.len() - items.len()),
                    class_sel(),
                ),
                tables.deep_view() == items_where(its0.take(its0.len() - items.len()), table_sel()),
                type_aliases.deep_view() == items_where(
                    its0.take(its0.len() - items.len()),
                    type_alias_sel(),
                ),
                enums.deep_view() == items_where(its0.take(its0.len() - items.len()), enum_sel()),
                globals.deep_view() == items_where(
                    its0.take(its0.len() - items.len()),
                    global_sel(),
                ),
            decreases items.len(),
        {
            let ghost i = its0.len() - items.deep_view().len();
            let ghost pre = items.deep_view();
            let ghost pc = classes.deep_view();
            let ghost pt = tables.deep_view();
            let ghost pa = type_aliases.deep_view();
            let ghost pe = enums.deep_view();
            let ghost pg = globals.deep_view();
            let x = items.remove(0);
            proof {
                assert(pre == its0.skip(i));
                assert(x@ == pre[0]);
                assert(pre[0] == its0[i]);
                assert(items.deep_view() =~= pre.drop_first());
                assert(pre.drop_first() =~= its0.skip(i + 1));
                assert(its0.take(i + 1).drop_last() =~= its0.take(i));
                assert(its0.take(i + 1).last() == its0[i]);
            }
            match &x.inner {
                crate::doctree::DocItemEnum::Class(_) => {
                    classes.push(x);
                    proof {
                        assert(classes.deep_view() =~= pc.push(its0[i]));
                    }
                },
                crate::doctree::DocItemEnum::Table(_) => {
                    tables.push(x);
                    proof {
                        assert(tables.deep_view() =~= pt.push(its0[i]));
                    }
                },
                crate::doctree::DocItemEnum::TypeAlias(_) => {
                    type_aliases.push(x);
                    proof {
                        assert(type_aliases.deep_view() =~= pa.push(its0[i]));
                    }
                },
                crate::doctree::DocItemEnum::Enum(_) => {
                    enums.push(x);
                    proof {
                        assert(enums.deep_view() =~= pe.push(its0[i]));
                    }
                },
                crate::doctree::DocItemEnum::Global(_) => {
                    globals.push(x);
                    proof {
                        assert(globals.deep_view() =~= pg.push(its0[i]));
                    }
                },
            }
        }
        proof {
            assert(its0.take(its0.len() as int) =~= its0);
        }
        ItemPartition { name, classes, tables, type_aliases, enums, globals }
    }
}

} // verus!
