//! The internal representation of a folder of definition files: raw
//! definitions grouped by the source file they were declared in, with
//! declarations outside the workspace root filtered away.

use crate::errors::{DocError, DocErrorView, ErrorKind};
use crate::json::{Define, DefineView, Definition, DefinitionView};
use crate::keyed;
use crate::location::{uri_key_le, FileUri};
use vstd::prelude::*;

verus! {

/// A file containing definitions: its identifier, the definitions declared
/// in it, and the file contents.
#[derive(Debug, Clone, PartialEq)]
pub struct SourceFile {
    /// The absolute identifier of this file.
    pub uri: FileUri,
    /// Raw definitions within this file.
    pub definitions: Vec<Definition>,
    /// The file contents.
    pub text: String,
}

/// Mathematical model of a `SourceFile`.
pub ghost struct SourceFileView {
    pub uri: Seq<char>,
    pub definitions: Seq<DefinitionView>,
    pub text: Seq<char>,
}

impl View for SourceFile {
    type V = SourceFileView;

    open spec fn view(&self) -> SourceFileView {
        SourceFileView {
            uri: self.uri@,
            definitions: self.definitions.deep_view(),
            text: self.text@,
        }
    }
}

impl DeepView for SourceFile {
    type V = SourceFileView;

    open spec fn deep_view(&self) -> SourceFileView {
        self.view()
    }
}

/// The defines of a definition that sit in the file named `uri`, in order.
pub open spec fn defines_for_file(defines: Seq<DefineView>, uri: Seq<char>) -> Seq<DefineView>
    decreases defines.len(),
{
    if defines.len() == 0 {
        Seq::<DefineView>::empty()
    } else {
        let rest = defines_for_file(defines.drop_last(), uri);
        if defines.last().location.file == uri {
            rest.push(defines.last())
        } else {
            rest
        }
    }
}

impl SourceFile {
    /// A source file with the given identifier and contents and no
    /// definitions yet.
    pub fn new(uri: FileUri, text: String) -> (r: Self)
        ensures
            r@.uri == uri@,
            r@.text == text@,
            r@.definitions == Seq::<DefinitionView>::empty(),
    {
        let definitions: Vec<Definition> = Vec::new();
        proof {
            assert(definitions.deep_view() =~= Seq::<DefinitionView>::empty());
        }
        Self { uri, definitions, text }
    }

    /// Attach a definition to this file, keeping only the defines whose own
    /// location sits in this file. An error when none does: a definition is
    /// only attached to files its defines name.
    pub fn add_definition(&mut self, definition: Definition) -> (r: Result<(), DocError>)
        ensures
            final(self)@.uri == old(self)@.uri,
            final(self)@.text == old(self)@.text,
            match r {
                Ok(_) => defines_for_file(definition@.defines, old(self)@.uri).len() > 0
                    && final(self)@.definitions == old(self)@.definitions.push(
                    DefinitionView {
                        defines: defines_for_file(definition@.defines, old(self)@.uri),
                        ..definition@
                    },
                ),
                Err(e) => defines_for_file(definition@.defines, old(self)@.uri).len() == 0 && e@
                    == (DocErrorView { kind: ErrorKind::NoDefinesForFile, name: definition@.name })
                    && final(self)@.definitions == old(self)@.definitions,
            },
    {
        let ghost dv = definition.defines.deep_view();
        let mut filtered: Vec<Define> = Vec::new();
        let mut i: usize = 0;
        proof {
            assert(filtered.deep_view() =~= defines_for_file(dv.take(0), self.uri@));
        }
        while i < definition.defines.len()
            invariant
                i <= definition.defines.len(),
                dv == definition.defines.deep_view(),
                filtered.deep_view() == defines_for_file(dv.take(i as int), self.uri@),
            decreases definition.defines.len() - i,
        {
            let ghost pre = filtered.deep_view();
            proof {
                assert(dv.take(i + 1).drop_last() =~= dv.take(i as int));
                assert(dv.take(i + 1).last() == dv[i as int]);
            }
            if definition.defines[i].location.file.eq(&self.uri) {
                filtered.push(definition.defines[i].duplicate());
                proof {
                    assert(filtered.deep_view() =~= pre.push(dv[i as int]));
                }
            }
            i += 1;
        }
        proof {
            assert(dv.take(dv.len() as int) =~= dv);
        }

        if filtered.len() == 0 {
            return Err(DocError::new(ErrorKind::NoDefinesForFile, &definition.name));
        }

        let ghost prev = self.definitions.deep_view();
        let newdef = Definition {
            name: definition.name,
            desc: definition.desc,
            definition_type: definition.definition_type,
            rawdesc: definition.rawdesc,
            defines: filtered,
            fields: definition.fields,
        };
        self.definitions.push(newdef);
        proof {
            assert(self.definitions.deep_view() =~= prev.push(
                DefinitionView { defines: defines_for_file(dv, self.uri@), ..definition@ },
            ));
        }
        Ok(())
    }
}

/// The identifier a source file is keyed by.
pub open spec fn source_file_key() -> spec_fn(SourceFileView) -> Seq<char> {
    |f: SourceFileView| f.uri
}

/// The distinct file identifiers named by a list of defines, in order of
/// first occurrence.
pub open spec fn unique_uris(defines: Seq<DefineView>) -> Seq<Seq<char>>
    decreases defines.len(),
{
    if defines.len() == 0 {
        Seq::<Seq<char>>::empty()
    } else {
        let rest = unique_uris(defines.drop_last());
        if rest.contains(defines.last().location.file) {
            rest
        } else {
            rest.push(defines.last().location.file)
        }
    }
}

/// Whether `uri` is among the collected identifiers.
fn uris_contain(v: &Vec<FileUri>, uri: &FileUri) -> (r: bool)
    ensures
        r == v.deep_view().contains(uri@),
{
    let mut k: usize = 0;
    while k < v.len()
        invariant
            k <= v.len(),
            forall|q: int| 0 <= q < k ==> (#[trigger] v@[q])@ != uri@,
        decreases v.len() - k,
    {
        if v[k].eq(uri) {
            proof {
                assert(v.deep_view()[k as int] == uri@);
            }
            return true;
        }
        k += 1;
    }
    proof {
        assert forall|q: int| 0 <= q < v.deep_view().len() implies v.deep_view()[q] != uri@ by {
            assert(v@[q]@ != uri@);
        }
    }
    false
}

/// The distinct file identifiers of a definition's defines, in order of
/// first occurrence; see [`unique_uris`].
fn unique_define_uris(defines: &Vec<Define>) -> (r: Vec<FileUri>)
    ensures
        r.deep_view() == unique_uris(defines.deep_view()),
{
    let ghost dv = defines.deep_view();
    let mut out: Vec<FileUri> = Vec::new();
    let mut i: usize = 0;
    proof {
        assert(out.deep_view() =~= unique_uris(dv.take(0)));
    }
    while i < defines.len()
        invariant
            i <= defines.len(),
            dv == defines.deep_view(),
            out.deep_view() == unique_uris(dv.take(i as int)),
        decreases defines.len() - i,
    {
        let ghost pre = out.deep_view();
        proof {
            assert(dv.take(i + 1).drop_last() =~= dv.take(i as int));
            assert(dv.take(i + 1).last() == dv[i as int]);
        }
        if !uris_contain(&out, &defines[i].location.file) {
            out.push(defines[i].location.file.duplicate());
            proof {
                assert(out.deep_view() =~= pre.push(dv[i as int].location.file));
            }
        }
        i += 1;
    }
    proof {
        assert(dv.take(dv.len() as int) =~= dv);
    }
    out
}

/// A source file without definitions, as grouping first creates it.
pub open spec fn empty_source_file(uri: Seq<char>) -> SourceFileView {
    SourceFileView {
        uri,
        definitions: Seq::<DefinitionView>::empty(),
        text: Seq::<char>::empty(),
    }
}

/// One (definition, identifier) pairing of grouping: skipped when the file
/// sits outside the root, otherwise the file (opened on first use) takes the
/// copy of the definition whose defines are filtered to that file.
pub open spec fn spec_attach_one(
    files: Seq<SourceFileView>,
    root: Seq<char>,
    d: DefinitionView,
    uri: Seq<char>,
) -> Result<Seq<SourceFileView>, DocErrorView> {
    if !root.is_prefix_of(uri) {
        Ok(files)
    } else {
        let found = keyed::index_by(files, source_file_key(), uri);
        let fs = if found < 0 {
            files.push(empty_source_file(uri))
        } else {
            files
        };
        let idx = if found < 0 {
            files.len() as int
        } else {
            found
        };
        let filtered = defines_for_file(d.defines, uri);
        if filtered.len() == 0 {
            Err(DocErrorView { kind: ErrorKind::NoDefinesForFile, name: d.name })
        } else {
            Ok(
                fs.update(
                    idx,
                    SourceFileView {
                        definitions: fs[idx].definitions.push(
                            DefinitionView { defines: filtered, ..d },
                        ),
                        ..fs[idx]
                    },
                ),
            )
        }
    }
}

/// One definition distributed to each distinct file its defines name, in
/// first-occurrence order.
pub open spec fn spec_attach(
    files: Seq<SourceFileView>,
    root: Seq<char>,
    d: DefinitionView,
    uris: Seq<Seq<char>>,
) -> Result<Seq<SourceFileView>, DocErrorView>
    decreases uris.len(),
{
    if uris.len() == 0 {
        Ok(files)
    } else {
        match spec_attach(files, root, d, uris.drop_last()) {
            Err(e) => Err(e),
            Ok(fs) => spec_attach_one(fs, root, d, uris.last()),
        }
    }
}

/// An error among the first `j` pairings decides the whole distribution.
proof fn lemma_attach_err_persists(
    files: Seq<SourceFileView>,
    root: Seq<char>,
    d: DefinitionView,
    uris: Seq<Seq<char>>,
    j: int,
)
    requires
        0 <= j <= uris.len(),
        spec_attach(files, root, d, uris.take(j)) is Err,
    ensures
        spec_attach(files, root, d, uris) == spec_attach(files, root, d, uris.take(j)),
    decreases uris.len() - j,
{
    if j < uris.len() {
        assert(uris.take(j + 1).drop_last() =~= uris.take(j));
        lemma_attach_err_persists(files, root, d, uris, j + 1);
    } else {
        assert(uris.take(j) =~= uris);
    }
}

/// A whole batch of definitions grouped into files, in order.
pub open spec fn spec_load(
    files: Seq<SourceFileView>,
    root: Seq<char>,
    docs: Seq<DefinitionView>,
) -> Result<Seq<SourceFileView>, DocErrorView>
    decreases docs.len(),
{
    if docs.len() == 0 {
        Ok(files)
    } else {
        match spec_load(files, root, docs.drop_last()) {
            Err(e) => Err(e),
            Ok(fs) => spec_attach(fs, root, docs.last(), unique_uris(docs.last().defines)),
        }
    }
}

/// An error among the first `i` definitions decides the whole batch.
proof fn lemma_load_err_persists(
    files: Seq<SourceFileView>,
    root: Seq<char>,
    docs: Seq<DefinitionView>,
    i: int,
)
    requires
        0 <= i <= docs.len(),
        spec_load(files, root, docs.take(i)) is Err,
    ensures
        spec_load(files, root, docs) == spec_load(files, root, docs.take(i)),
    decreases docs.len() - i,
{
    if i < docs.len() {
        assert(docs.take(i + 1).drop_last() =~= docs.take(i));
        lemma_load_err_persists(files, root, docs, i + 1);
    } else {
        assert(docs.take(i) =~= docs);
    }
}

/// A root folder containing definition files.
#[derive(Debug, Clone, PartialEq)]
pub struct Workspace {
    /// Root identifier for the workspace.
    pub root: FileUri,
    /// All files within the workspace, in order of first reference.
    pub files: Vec<SourceFile>,
}

/// Mathematical model of a `Workspace`.
pub ghost struct WorkspaceView {
    pub root: Seq<char>,
    pub files: Seq<SourceFileView>,
}

impl View for Workspace {
    type V = WorkspaceView;

    open spec fn view(&self) -> WorkspaceView {
        WorkspaceView { root: self.root@, files: self.files.deep_view() }
    }
}

/// The first position of the file named `uri`, if one is present.
fn find_file_index(files: &Vec<SourceFile>, uri: &FileUri) -> (r: Option<usize>)
    ensures
        match r {
            Some(ix) => ix < files@.len() && keyed::index_by(
                files.deep_view(),
                source_file_key(),
                uri@,
            ) == ix,
            None => keyed::index_by(files.deep_view(), source_file_key(), uri@) == -1,
        },
{
    let mut k: usize = 0;
    while k < files.len()
        invariant
            k <= files.len(),
            forall|q: int| 0 <= q < k ==> (#[trigger] files@[q]).uri@ != uri@,
        decreases files.len() - k,
    {
        if files[k].uri.eq(uri) {
            proof {
                assert forall|q: int|
                    0 <= q < k implies source_file_key()(files.deep_view()[q]) != uri@ by {
                    assert(files@[q].uri@ != uri@);
                }
                keyed::lemma_index_by_at(files.deep_view(), source_file_key(), uri@, k as int);
            }
            return Some(k);
        }
        k += 1;
    }
    proof {
        assert forall|q: int|
            0 <= q < files.deep_view().len() implies source_file_key()(files.deep_view()[q])
            != uri@ by {
            assert(files@[q].uri@ != uri@);
        }
        keyed::lemma_index_by_none(files.deep_view(), source_file_key(), uri@);
    }
    None
}

impl Workspace {
    /// An empty workspace under the given root.
    pub fn new(root: FileUri) -> (r: Self)
        ensures
            r@.root == root@,
            r@.files == Seq::<SourceFileView>::empty(),
    {
        let files: Vec<SourceFile> = Vec::new();
        proof {
            assert(files.deep_view() =~= Seq::<SourceFileView>::empty());
        }
        Self { root, files }
    }

    /// Ingest a batch of definitions: each definition is distributed, as a
    /// copy with the defines of that file alone, to every distinct in-root
    /// file its defines name; files are created on first reference. Pairings
    /// outside the root are skipped. See [`spec_load`].
    pub fn load(&mut self, docs: Vec<Definition>) -> (r: Result<(), DocError>)
        ensures
            final(self)@.root == old(self)@.root,
            match r {
                Ok(_) => spec_load(old(self)@.files, old(self)@.root, docs.deep_view()) == Ok::<
                    Seq<SourceFileView>,
                    DocErrorView,
                >(final(self)@.files),
                Err(e) => spec_load(old(self)@.files, old(self)@.root, docs.deep_view()) == Err::<
                    Seq<SourceFileView>,
                    DocErrorView,
                >(e@),
            },
    {
        let ghost root0 = self.root@;
        let ghost files00 = self.files.deep_view();
        let ghost docsv = docs.deep_view();
        let mut i: usize = 0;
        proof {
            assert(docsv.take(0) =~= Seq::<DefinitionView>::empty());
        }
        while i < docs.len()
            invariant
                i <= docs.len(),
                docsv == docs.deep_view(),
                root0 == old(self)@.root,
                files00 == old(self)@.files,
                self.root@ == root0,
                spec_load(files00, root0, docsv.take(i as int)) == Ok::<
                    Seq<SourceFileView>,
                    DocErrorView,
                >(self.files.deep_view()),
            decreases docs.len() - i,
        {
            let ghost files0 = self.files.deep_view();
            let doc = &docs[i];
            let uris = unique_define_uris(&doc.defines);
            let ghost urisv = uris.deep_view();
            let mut j: usize = 0;
            proof {
                assert(urisv.take(0) =~= Seq::<Seq<char>>::empty());
            }
            while j < uris.len()
                invariant
                    j <= uris.len(),
                    i < docs.len(),
                    urisv == uris.deep_view(),
                    docsv == docs.deep_view(),
                    doc == docs@[i as int],
                    root0 == old(self)@.root,
                    files00 == old(self)@.files,
                    self.root@ == root0,
                    spec_load(files00, root0, docsv.take(i as int)) == Ok::<
                        Seq<SourceFileView>,
                        DocErrorView,
                    >(files0),
                    urisv == unique_uris(docsv[i as int].defines),
                    spec_attach(files0, root0, docsv[i as int], urisv.take(j as int)) == Ok::<
                        Seq<SourceFileView>,
                        DocErrorView,
                    >(self.files.deep_view()),
                decreases uris.len() - j,
            {
                let ghost cur = self.files.deep_view();
                let uri = &uris[j];
                proof {
                    assert(urisv.take(j + 1).drop_last() =~= urisv.take(j as int));
                    assert(urisv.take(j + 1).last() == urisv[j as int]);
                }
                if uri.starts_with_path(&self.root) {
                    let idx = match find_file_index(&self.files, uri) {
                        Some(ix) => ix,
                        None => {
                            self.files.push(SourceFile::new(uri.duplicate(), String::new()));
                            proof {
                                assert(self.files.deep_view() =~= cur.push(
                                    empty_source_file(uri@),
                                ));
                            }
                            self.files.len() - 1
                        },
                    };
                    let ghost mid = self.files.deep_view();
                    let mut file = self.files.remove(idx);
                    let res = file.add_definition(doc.duplicate());
                    self.files.insert(idx, file);
                    match res {
                        Ok(_) => {
                            proof {
                                assert(docsv[i as int] == doc@);
                                assert(urisv[j as int] == uri@);
                                if keyed::index_by(cur, source_file_key(), uri@) >= 0 {
                                    keyed::lemma_index_by(cur, source_file_key(), uri@);
                                    assert(source_file_key()(cur[idx as int]) == cur[idx as int].uri);
                                }
                                assert(mid[idx as int].uri == uri@);
                                assert(file@ == (SourceFileView {
                                    definitions: mid[idx as int].definitions.push(
                                        DefinitionView {
                                            defines: defines_for_file(doc@.defines, uri@),
                                            ..doc@
                                        },
                                    ),
                                    ..mid[idx as int]
                                }));
                                assert(self.files.deep_view() =~= mid.update(idx as int, file@));
                                assert(spec_attach_one(cur, root0, docsv[i as int], urisv[j as int])
                                    == Ok::<Seq<SourceFileView>, DocErrorView>(
                                    self.files.deep_view(),
                                ));
                            }
                        },
                        Err(e) => {
                            proof {
                                assert(docsv[i as int] == doc@);
                                assert(urisv[j as int] == uri@);
                                if keyed::index_by(cur, source_file_key(), uri@) >= 0 {
                                    keyed::lemma_index_by(cur, source_file_key(), uri@);
                                    assert(source_file_key()(cur[idx as int]) == cur[idx as int].uri);
                                }
                                assert(mid[idx as int].uri == uri@);
                                assert(spec_attach_one(cur, root0, docsv[i as int], urisv[j as int])
                                    == Err::<Seq<SourceFileView>, DocErrorView>(e@));
                                assert(spec_attach(
                                    files0,
                                    root0,
                                    docsv[i as int],
                                    urisv.take(j + 1),
                                ) == Err::<Seq<SourceFileView>, DocErrorView>(e@));
                                lemma_attach_err_persists(
                                    files0,
                                    root0,
                                    docsv[i as int],
                                    urisv,
                                    j + 1,
                                );
                                assert(docsv.take(i + 1).drop_last() =~= docsv.take(i as int));
                                assert(docsv.take(i + 1).last() == docsv[i as int]);
                                assert(spec_load(files00, root0, docsv.take(i + 1)) == Err::<
                                    Seq<SourceFileView>,
                                    DocErrorView,
                                >(e@));
                                lemma_load_err_persists(files00, root0, docsv, i + 1);
                            }
                            return Err(e);
                        },
                    }
                }
                j += 1;
            }
            proof {
                assert(urisv.take(urisv.len() as int) =~= urisv);
                assert(docsv.take(i + 1).drop_last() =~= docsv.take(i as int));
                assert(docsv.take(i + 1).last() == docsv[i as int]);
            }
            i += 1;
        }
        proof {
            assert(docsv.take(docs@.len() as int) =~= docsv);
        }
        Ok(())
    }

    /// The workspace's files in build order: ascending by path depth, then
    /// by file name; ties keep their first-reference order. This order is
    /// load-bearing: the tree builder assumes it.
    pub fn sorted_files(self) -> (r: Vec<SourceFile>)
        ensures
            r.deep_view() == spec_sort_files(self@.files),
    {
        let ghost files0 = self.files.deep_view();
        let mut files = self.files;
        let mut out: Vec<SourceFile> = Vec::new();
        proof {
            assert(out.deep_view() =~= spec_sort_files(files0.take(0)));
            assert(files.deep_view() =~= files0.skip(0));
        }
        while files.len() > 0
            invariant
                files.len() <= files0.len(),
                files.deep_view() == files0.skip(files0.len() - files.len()),
                out.deep_view() == spec_sort_files(files0.take(files0.len() - files.len())),
            decreases files.len(),
        {
            let ghost i = files0.len() - files.deep_view().len();
            let ghost pre = files.deep_view();
            let x = files.remove(0);
            proof {
                assert(pre == files0.skip(i));
                assert(x@ == pre[0]);
                assert(pre[0] == files0[i]);
                assert(files.deep_view() =~= pre.drop_first());
                assert(pre.drop_first() =~= files0.skip(i + 1));
            }
            insert_sorted(&mut out, x);
            proof {
                assert(files0.take(i + 1).drop_last() =~= files0.take(i));
                assert(files0.take(i + 1).last() == files0[i]);
            }
        }
        proof {
            assert(files0.take(files0.len() as int) =~= files0);
        }
        out
    }
}

/// Whether `a` comes no later than `b` in build order; see [`uri_key_le`].
pub open spec fn file_le(a: SourceFileView, b: SourceFileView) -> bool {
    uri_key_le(a.uri, b.uri)
}

/// `f` inserted into the already-sorted `s`, after every entry that comes no
/// later than it.
pub open spec fn spec_insert_file(s: Seq<SourceFileView>, f: SourceFileView) -> Seq<
    SourceFileView,
>
    decreases s.len(),
{
    if s.len() == 0 {
        seq![f]
    } else if file_le(s.last(), f) {
        s.push(f)
    } else {
        spec_insert_file(s.drop_last(), f).push(s.last())
    }
}

/// The files sorted by [`file_le`], stably: insertion sort from the front.
pub open spec fn spec_sort_files(s: Seq<SourceFileView>) -> Seq<SourceFileView>
    decreases s.len(),
{
    if s.len() == 0 {
        s
    } else {
        spec_insert_file(spec_sort_files(s.drop_last()), s.last())
    }
}

/// Insert `x` before the first entry from the back that does not come no
/// later than it; see [`spec_insert_file`].
fn insert_sorted(out: &mut Vec<SourceFile>, x: SourceFile)
    ensures
        final(out).deep_view() == spec_insert_file(old(out).deep_view(), x@),
{
    let ghost out0 = out.deep_view();
    let mut j: usize = out.len();
    proof {
        assert(out0.take(out0.len() as int) =~= out0);
        assert(out0.skip(out0.len() as int) =~= Seq::<SourceFileView>::empty());
        assert(spec_insert_file(out0, x@) + out0.skip(out0.len() as int) =~= spec_insert_file(
            out0,
            x@,
        ));
    }
    while j > 0 && !out[j - 1].uri.key_le(&x.uri)
        invariant
            j <= out.len(),
            out0 == old(out).deep_view(),
            out.deep_view() == out0,
            spec_insert_file(out0, x@) == spec_insert_file(out0.take(j as int), x@) + out0.skip(
                j as int,
            ),
        decreases j,
    {
        proof {
            assert(out0.take(j as int).last() == out0[j - 1]);
            assert(out0.take(j as int).drop_last() =~= out0.take(j - 1));
            assert(out0.skip(j - 1) =~= seq![out0[j - 1]] + out0.skip(j as int));
            assert(spec_insert_file(out0.take(j - 1), x@).push(out0[j - 1]) + out0.skip(j as int)
                =~= spec_insert_file(out0.take(j - 1), x@) + out0.skip(j - 1));
        }
        j -= 1;
    }
    proof {
        if j > 0 {
            assert(out0.take(j as int).last() == out0[j - 1]);
            assert(spec_insert_file(out0.take(j as int), x@) == out0.take(j as int).push(x@));
        } else {
            assert(out0.take(0).len() == 0);
            assert(spec_insert_file(out0.take(0), x@) =~= out0.take(0).push(x@));
        }
    }
    out.insert(j, x);
    proof {
        assert(out.deep_view() =~= out0.take(j as int).push(x@) + out0.skip(j as int));
    }
}

} // verus!
