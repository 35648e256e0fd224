//! The passes that fill one file's item map: item parsing, the two
//! field-attachment sweeps, and the table/class merge. Each pass runs over
//! one file's definitions and mutates that file's items in place; the
//! attachment passes run after item parsing and tolerate missing owners.

use crate::doctree::{
    field_key, is_primitive_tag, named_function_key, spec_parse_doc_item, spec_parse_function,
    DocItem, DocItemEnum, DocItemEnumV, DocItemV, EnumV, Field, FieldV, Function, NamedFunction,
    NamedFunctionV, TableV,
};
use crate::errors::{DocError, DocErrorView, ErrorKind};
use crate::json::{DefineType, DefinitionView, ExtendsType};
use crate::keyed;
use crate::strutil;
use crate::tree::{doc_item_key, MetaFile};
use crate::workspace::SourceFile;
use vstd::prelude::*;
use vstd::string::*;

verus! {

/// Every definition of a file carries at least one define.
pub open spec fn source_file_wf(f: crate::workspace::SourceFileView) -> bool {
    forall|k: int| 0 <= k < f.definitions.len() ==> (#[trigger] f.definitions[k]).defines.len()
        >= 1
}

/// The items of a file after the parsing pass ran over `defs`: each record
/// with a primary head kind becomes an item written under its name, later
/// records silently replacing earlier ones of the same name.
pub open spec fn spec_parse_items(items: Seq<DocItemV>, defs: Seq<DefinitionView>) -> Result<
    Seq<DocItemV>,
    DocErrorView,
>
    decreases defs.len(),
{
    if defs.len() == 0 {
        Ok(items)
    } else {
        match spec_parse_items(items, defs.drop_last()) {
            Err(e) => Err(e),
            Ok(its) => match spec_parse_doc_item(defs.last()) {
                Err(e) => Err(e),
                Ok(None) => Ok(its),
                Ok(Some(it)) => Ok(keyed::upsert_by(its, doc_item_key(), it)),
            },
        }
    }
}

proof fn lemma_parse_items_err_persists(
    items: Seq<DocItemV>,
    defs: Seq<DefinitionView>,
    i: int,
)
    requires
        0 <= i <= defs.len(),
        spec_parse_items(items, defs.take(i)) is Err,
    ensures
        spec_parse_items(items, defs) == spec_parse_items(items, defs.take(i)),
    decreases defs.len() - i,
{
    if i < defs.len() {
        assert(defs.take(i + 1).drop_last() =~= defs.take(i));
        lemma_parse_items_err_persists(items, defs, i + 1);
    } else {
        assert(defs.take(i) =~= defs);
    }
}

/// Parse each record of the file into an item; see [`spec_parse_items`].
pub fn parse_items(meta_file: &mut MetaFile, source_file: &SourceFile) -> (r: Result<
    (),
    DocError,
>)
    requires
        source_file_wf(source_file@),
    ensures
        final(meta_file)@.uri == old(meta_file)@.uri,
        final(meta_file)@.children == old(meta_file)@.children,
        match r {
            Ok(_) => spec_parse_items(old(meta_file)@.items, source_file@.definitions) == Ok::<
                Seq<DocItemV>,
                DocErrorView,
            >(final(meta_file)@.items),
            Err(e) => spec_parse_items(old(meta_file)@.items, source_file@.definitions) == Err::<
                Seq<DocItemV>,
                DocErrorView,
            >(e@),
        },
{
    let ghost items0 = old(meta_file)@.items;
    let ghost defs = source_file@.definitions;
    let mut i: usize = 0;
    proof {
        assert(defs.take(0) =~= Seq::<DefinitionView>::empty());
    }
    while i < source_file.definitions.len()
        invariant
            i <= source_file.definitions.len(),
            source_file_wf(source_file@),
            items0 == old(meta_file)@.items,
            defs == source_file@.definitions,
            meta_file@.uri == old(meta_file)@.uri,
            meta_file@.children == old(meta_file)@.children,
            spec_parse_items(items0, defs.take(i as int)) == Ok::<Seq<DocItemV>, DocErrorView>(
                meta_file@.items,
            ),
        decreases source_file.definitions.len() - i,
    {
        proof {
            assert(defs.take(i + 1).drop_last() =~= defs.take(i as int));
            assert(defs.take(i + 1).last() == defs[i as int]);
            assert(defs[i as int] == source_file.definitions@[i as int]@);
        }
        let definition = &source_file.definitions[i];
        match DocItem::parse(definition) {
            Ok(None) => {},
            Ok(Some(item)) => {
                meta_file.add_item(item);
            },
            Err(e) => {
                proof {
                    lemma_parse_items_err_persists(items0, defs, i + 1);
                }
                return Err(e);
            },
        }
        i += 1;
    }
    proof {
        assert(defs.take(defs.len() as int) =~= defs);
    }
    Ok(())
}

/// The first position of the item named `name`, if one is present.
fn find_item_index(items: &Vec<DocItem>, name: &str) -> (r: Option<usize>)
    ensures
        match r {
            Some(ix) => ix < items@.len() && keyed::index_by(
                items.deep_view(),
                doc_item_key(),
                name@,
            ) == ix,
            None => keyed::index_by(items.deep_view(), doc_item_key(), name@) == -1,
        },
{
    let mut k: usize = 0;
    while k < items.len()
        invariant
            k <= items.len(),
            forall|q: int| 0 <= q < k ==> (#[trigger] items@[q]).name@ != name@,
        decreases items.len() - k,
    {
        if strutil::str_eq(items[k].name.as_str(), name) {
            proof {
                assert forall|q: int|
                    0 <= q < k implies doc_item_key()(items.deep_view()[q]) != name@ by {
                    assert(items@[q].name@ != name@);
                }
                assert(doc_item_key()(items.deep_view()[k as int]) == items@[k as int].name@);
                keyed::lemma_index_by_at(items.deep_view(), doc_item_key(), name@, k as int);
            }
            return Some(k);
        }
        k += 1;
    }
    proof {
        assert forall|q: int|
            0 <= q < items.deep_view().len() implies doc_item_key()(items.deep_view()[q])
            != name@ by {
            assert(items@[q].name@ != name@);
        }
        keyed::lemma_index_by_none(items.deep_view(), doc_item_key(), name@);
    }
    None
}

/// The items of a file after one set-field or set-index record was applied.
/// The record's name splits at its first dot into owner and member. A missing
/// owner is skipped: it was declared in another module or comes later. An
/// owner that is a class is left alone: its fields were captured at parsing.
/// A table owner takes the member as a field for value-like assignments and
/// as a function for function assignments; any other owner, or a doc-only
/// assignment, is a fatal error.
pub open spec fn spec_set_field_one(items: Seq<DocItemV>, d: DefinitionView) -> Result<
    Seq<DocItemV>,
    DocErrorView,
> {
    if d.defines[0].define_type != DefineType::SetField && d.defines[0].define_type
        != DefineType::SetIndex {
        Ok(items)
    } else if d.defines[0].extends.len() == 0 {
        Err(DocErrorView { kind: ErrorKind::MissingExtends, name: d.name })
    } else {
        let dot = strutil::first_index_of(d.name, '.');
        if dot < 0 {
            Err(DocErrorView { kind: ErrorKind::InvalidMemberName, name: d.name })
        } else {
            let owner = d.name.take(dot);
            let member = d.name.skip(dot + 1);
            let oi = keyed::index_by(items, doc_item_key(), owner);
            if oi < 0 {
                Ok(items)
            } else {
                let ext = d.defines[0].extends[0];
                match items[oi].inner {
                    DocItemEnumV::Table(t) => {
                        if is_primitive_tag(ext.extends_type) || ext.extends_type
                            == ExtendsType::Table {
                            Ok(
                                items.update(
                                    oi,
                                    DocItemV {
                                        inner: DocItemEnumV::Table(
                                            TableV {
                                                fields: keyed::upsert_by(
                                                    t.fields,
                                                    field_key(),
                                                    FieldV {
                                                        name: member,
                                                        description: d.rawdesc,
                                                        lua_type: ext.view,
                                                    },
                                                ),
                                                ..t
                                            },
                                        ),
                                        ..items[oi]
                                    },
                                ),
                            )
                        } else if ext.extends_type == ExtendsType::Function {
                            match spec_parse_function(ext) {
                                Ok(f) => Ok(
                                    items.update(
                                        oi,
                                        DocItemV {
                                            inner: DocItemEnumV::Table(
                                                TableV {
                                                    functions: keyed::upsert_by(
                                                        t.functions,
                                                        named_function_key(),
                                                        NamedFunctionV { name: member, function: f },
                                                    ),
                                                    ..t
                                                },
                                            ),
                                            ..items[oi]
                                        },
                                    ),
                                ),
                                Err(e) => Err(e),
                            }
                        } else {
                            Err(DocErrorView { kind: ErrorKind::UnexpectedMemberType, name: d.name })
                        }
                    },
                    DocItemEnumV::Class(_) => Ok(items),
                    _ => Err(DocErrorView { kind: ErrorKind::MemberOwnerNotTable, name: d.name }),
                }
            }
        }
    }
}

/// The items of a file after the set-field pass ran over `defs`.
pub open spec fn spec_set_fields(items: Seq<DocItemV>, defs: Seq<DefinitionView>) -> Result<
    Seq<DocItemV>,
    DocErrorView,
>
    decreases defs.len(),
{
    if defs.len() == 0 {
        Ok(items)
    } else {
        match spec_set_fields(items, defs.drop_last()) {
            Err(e) => Err(e),
            Ok(its) => spec_set_field_one(its, defs.last()),
        }
    }
}

proof fn lemma_set_fields_err_persists(items: Seq<DocItemV>, defs: Seq<DefinitionView>, i: int)
    requires
        0 <= i <= defs.len(),
        spec_set_fields(items, defs.take(i)) is Err,
    ensures
        spec_set_fields(items, defs) == spec_set_fields(items, defs.take(i)),
    decreases defs.len() - i,
{
    if i < defs.len() {
        assert(defs.take(i + 1).drop_last() =~= defs.take(i));
        lemma_set_fields_err_persists(items, defs, i + 1);
    } else {
        assert(defs.take(i) =~= defs);
    }
}

/// Attach set-field and set-index members to their owning tables; see
/// [`spec_set_fields`].
pub fn parse_set_fields(meta_file: &mut MetaFile, source_file: &SourceFile) -> (r: Result<
    (),
    DocError,
>)
    requires
        source_file_wf(source_file@),
    ensures
        final(meta_file)@.uri == old(meta_file)@.uri,
        final(meta_file)@.children == old(meta_file)@.children,
        match r {
            Ok(_) => spec_set_fields(old(meta_file)@.items, source_file@.definitions) == Ok::<
                Seq<DocItemV>,
                DocErrorView,
            >(final(meta_file)@.items),
            Err(e) => spec_set_fields(old(meta_file)@.items, source_file@.definitions) == Err::<
                Seq<DocItemV>,
                DocErrorView,
            >(e@),
        },
{
    let ghost items0 = old(meta_file)@.items;
    let ghost defs = source_file@.definitions;
    let mut i: usize = 0;
    proof {
        assert(defs.take(0) =~= Seq::<DefinitionView>::empty());
    }
    while i < source_file.definitions.len()
        invariant
            i <= source_file.definitions.len(),
            source_file_wf(source_file@),
            items0 == old(meta_file)@.items,
            defs == source_file@.definitions,
            meta_file@.uri == old(meta_file)@.uri,
            meta_file@.children == old(meta_file)@.children,
            spec_set_fields(items0, defs.take(i as int)) == Ok::<Seq<DocItemV>, DocErrorView>(
                meta_file@.items,
            ),
        decreases source_file.definitions.len() - i,
    {
        proof {
            assert(defs.take(i + 1).drop_last() =~= defs.take(i as int));
            assert(defs.take(i + 1).last() == defs[i as int]);
            assert(defs[i as int] == source_file.definitions@[i as int]@);
        }
        let ghost cur = meta_file@.items;
        let ghost d = defs[i as int];
        let definition = &source_file.definitions[i];
        let head = &definition.defines[0];
        proof {
            assert(definition@ == d);
            assert(head@ == d.defines[0]);
        }
        if matches!(head.define_type, DefineType::SetField) || matches!(
            head.define_type,
            DefineType::SetIndex,
        ) {
            if head.extends.len() == 0 {
                proof {
                    lemma_set_fields_err_persists(items0, defs, i + 1);
                }
                return Err(DocError::new(ErrorKind::MissingExtends, &definition.name));
            }
            let name_len = strutil::str_len(definition.name.as_str());
            match strutil::find_char(definition.name.as_str(), '.') {
                None => {
                    proof {
                        strutil::lemma_first_index_of_none(d.name, '.');
                        lemma_set_fields_err_persists(items0, defs, i + 1);
                    }
                    return Err(DocError::new(ErrorKind::InvalidMemberName, &definition.name));
                },
                Some(dot) => {
                    proof {
                        strutil::lemma_first_index_of_at(d.name, '.', dot as int);
                    }
                    let owner = strutil::substring(definition.name.as_str(), 0, dot);
                    let member = strutil::substring(definition.name.as_str(), dot + 1, name_len);
                    proof {
                        assert(owner@ =~= d.name.take(dot as int));
                        assert(member@ =~= d.name.skip(dot + 1));
                    }
                    match find_item_index(&meta_file.items, owner.as_str()) {
                        None => {
                            // Missing owner: a forward or external reference.
                        },
                        Some(oi) => {
                            let ext = &head.extends[0];
                            proof {
                                assert(ext@ == d.defines[0].extends[0]);
                            }
                            let ghost pre_item = cur[oi as int];
                            let mut item = meta_file.items.remove(oi);
                            proof {
                                assert(item@ == pre_item);
                            }
                            match &mut item.inner {
                                DocItemEnum::Table(t) => {
                                    match ext.extends_type {
                                        ExtendsType::Binary | ExtendsType::Integer
                                            | ExtendsType::Nil | ExtendsType::Number
                                            | ExtendsType::String | ExtendsType::Table => {
                                            t.add_field(
                                                Field {
                                                    name: member,
                                                    description: strutil::clone_opt_string(
                                                        &definition.rawdesc,
                                                    ),
                                                    lua_type: ext.view.clone(),
                                                },
                                            );
                                        },
                                        ExtendsType::Function => {
                                            let f = match Function::parse(ext) {
                                                Ok(f) => f,
                                                Err(_) => unreached(),
                                            };
                                            t.add_function(
                                                NamedFunction { name: member, function: f },
                                            );
                                        },
                                        _ => {
                                            meta_file.items.insert(oi, item);
                                            proof {
                                                lemma_set_fields_err_persists(items0, defs, i + 1);
                                            }
                                            return Err(
                                                DocError::new(
                                                    ErrorKind::UnexpectedMemberType,
                                                    &definition.name,
                                                ),
                                            );
                                        },
                                    }
                                },
                                DocItemEnum::Class(_) => {
                                    // A class captured its fields at parsing;
                                    // the assignment is deliberately ignored.
                                },
                                _ => {
                                    meta_file.items.insert(oi, item);
                                    proof {
                                        lemma_set_fields_err_persists(items0, defs, i + 1);
                                    }
                                    return Err(
                                        DocError::new(
                                            ErrorKind::MemberOwnerNotTable,
                                            &definition.name,
                                        ),
                                    );
                                },
                            }
                            let ghost newv = item@;
                            meta_file.items.insert(oi, item);
                            proof {
                                assert(meta_file.items.deep_view() =~= cur.update(oi as int, newv));
                                if pre_item.inner is Class {
                                    assert(newv == pre_item);
                                    assert(cur.update(oi as int, newv) =~= cur);
                                }
                                assert(spec_set_field_one(cur, d) == Ok::<
                                    Seq<DocItemV>,
                                    DocErrorView,
                                >(meta_file@.items));
                            }
                        },
                    }
                },
            }
        }
        i += 1;
    }
    proof {
        assert(defs.take(defs.len() as int) =~= defs);
    }
    Ok(())
}

/// The items of a file after one table-field record was applied. The
/// record's name splits at its first dot into owner and member. A missing
/// owner is skipped; an enum owner takes the member as a field with no type
/// text (the input schema carries none for enum values); any other owner is
/// a fatal error.
pub open spec fn spec_table_field_one(items: Seq<DocItemV>, d: DefinitionView) -> Result<
    Seq<DocItemV>,
    DocErrorView,
> {
    if d.defines[0].define_type != DefineType::TableField {
        Ok(items)
    } else {
        let dot = strutil::first_index_of(d.name, '.');
        if dot < 0 {
            Err(DocErrorView { kind: ErrorKind::InvalidMemberName, name: d.name })
        } else {
            let owner = d.name.take(dot);
            let member = d.name.skip(dot + 1);
            let oi = keyed::index_by(items, doc_item_key(), owner);
            if oi < 0 {
                Ok(items)
            } else {
                match items[oi].inner {
                    DocItemEnumV::Enum(en) => Ok(
                        items.update(
                            oi,
                            DocItemV {
                                inner: DocItemEnumV::Enum(
                                    EnumV {
                                        fields: keyed::upsert_by(
                                            en.fields,
                                            field_key(),
                                            FieldV {
                                                name: member,
                                                description: d.rawdesc,
                                                lua_type: Seq::<char>::empty(),
                                            },
                                        ),
                                    },
                                ),
                                ..items[oi]
                            },
                        ),
                    ),
                    _ => Err(DocErrorView { kind: ErrorKind::MemberOwnerNotEnum, name: d.name }),
                }
            }
        }
    }
}

/// The items of a file after the table-field pass ran over `defs`.
pub open spec fn spec_table_fields(items: Seq<DocItemV>, defs: Seq<DefinitionView>) -> Result<
    Seq<DocItemV>,
    DocErrorView,
>
    decreases defs.len(),
{
    if defs.len() == 0 {
        Ok(items)
    } else {
        match spec_table_fields(items, defs.drop_last()) {
            Err(e) => Err(e),
            Ok(its) => spec_table_field_one(its, defs.last()),
        }
    }
}

proof fn lemma_table_fields_err_persists(items: Seq<DocItemV>, defs: Seq<DefinitionView>, i: int)
    requires
        0 <= i <= defs.len(),
        spec_table_fields(items, defs.take(i)) is Err,
    ensures
        spec_table_fields(items, defs) == spec_table_fields(items, defs.take(i)),
    decreases defs.len() - i,
{
    if i < defs.len() {
        assert(defs.take(i + 1).drop_last() =~= defs.take(i));
        lemma_table_fields_err_persists(items, defs, i + 1);
    } else {
        assert(defs.take(i) =~= defs);
    }
}

/// Attach table-field members to their owning enums; see
/// [`spec_table_fields`].
pub fn parse_table_fields(meta_file: &mut MetaFile, source_file: &SourceFile) -> (r: Result<
    (),
    DocError,
>)
    requires
        source_file_wf(source_file@),
    ensures
        final(meta_file)@.uri == old(meta_file)@.uri,
        final(meta_file)@.children == old(meta_file)@.children,
        match r {
            Ok(_) => spec_table_fields(old(meta_file)@.items, source_file@.definitions) == Ok::<
                Seq<DocItemV>,
                DocErrorView,
            >(final(meta_file)@.items),
            Err(e) => spec_table_fields(old(meta_file)@.items, source_file@.definitions) == Err::<
                Seq<DocItemV>,
                DocErrorView,
            >(e@),
        },
{
    let ghost items0 = old(meta_file)@.items;
    let ghost defs = source_file@.definitions;
    let mut i: usize = 0;
    proof {
        assert(defs.take(0) =~= Seq::<DefinitionView>::empty());
    }
    while i < source_file.definitions.len()
        invariant
            i <= source_file.definitions.len(),
            source_file_wf(source_file@),
            items0 == old(meta_file)@.items,
            defs == source_file@.definitions,
            meta_file@.uri == old(meta_file)@.uri,
            meta_file@.children == old(meta_file)@.children,
            spec_table_fields(items0, defs.take(i as int)) == Ok::<Seq<DocItemV>, DocErrorView>(
                meta_file@.items,
            ),
        decreases source_file.definitions.len() - i,
    {
        proof {
            assert(defs.take(i + 1).drop_last() =~= defs.take(i as int));
            assert(defs.take(i + 1).last() == defs[i as int]);
            assert(defs[i as int] == source_file.definitions@[i as int]@);
        }
        let ghost cur = meta_file@.items;
        let ghost d = defs[i as int];
        let definition = &source_file.definitions[i];
        proof {
            assert(definition@ == d);
            assert(definition.defines@[0]@ == d.defines[0]);
        }
        if matches!(definition.defines[0].define_type, DefineType::TableField) {
            let name_len = strutil::str_len(definition.name.as_str());
            match strutil::find_char(definition.name.as_str(), '.') {
                None => {
                    proof {
                        strutil::lemma_first_index_of_none(d.name, '.');
                        lemma_table_fields_err_persists(items0, defs, i + 1);
                    }
                    return Err(DocError::new(ErrorKind::InvalidMemberName, &definition.name));
                },
                Some(dot) => {
                    proof {
                        strutil::lemma_first_index_of_at(d.name, '.', dot as int);
                    }
                    let owner = strutil::substring(definition.name.as_str(), 0, dot);
                    let member = strutil::substring(definition.name.as_str(), dot + 1, name_len);
                    proof {
                        assert(owner@ =~= d.name.take(dot as int));
                        assert(member@ =~= d.name.skip(dot + 1));
                    }
                    match find_item_index(&meta_file.items, owner.as_str()) {
                        None => {
                            // Missing owner: a forward or external reference.
                        },
                        Some(oi) => {
                            let ghost pre_item = cur[oi as int];
                            let mut item = meta_file.items.remove(oi);
                            proof {
                                assert(item@ == pre_item);
                            }
                            match &mut item.inner {
                                DocItemEnum::Enum(en) => {
                                    let empty_type = String::new();
                                    en.add_field(
                                        Field {
                                            name: member,
                                            description: strutil::clone_opt_string(
                                                &definition.rawdesc,
                                            ),
                                            lua_type: empty_type,
                                        },
                                    );
                                },
                                _ => {
                                    meta_file.items.insert(oi, item);
                                    proof {
                                        lemma_table_fields_err_persists(items0, defs, i + 1);
                                    }
                                    return Err(
                                        DocError::new(
                                            ErrorKind::MemberOwnerNotEnum,
                                            &definition.name,
                                        ),
                                    );
                                },
                            }
                            let ghost newv = item@;
                            meta_file.items.insert(oi, item);
                            proof {
                                assert(meta_file.items.deep_view() =~= cur.update(oi as int, newv));
                                assert(spec_table_field_one(cur, d) == Ok::<
                                    Seq<DocItemV>,
                                    DocErrorView,
                                >(meta_file@.items));
                            }
                        },
                    }
                },
            }
        }
        i += 1;
    }
    proof {
        assert(defs.take(defs.len() as int) =~= defs);
    }
    Ok(())
}

/// Whether some item of the file is a class of the given name.
pub open spec fn has_class_named(items: Seq<DocItemV>, name: Seq<char>) -> bool {
    exists|k: int|
        0 <= k < items.len() && (#[trigger] items[k]).inner is Class && items[k].name == name
}

/// Whether an item survives the merge pass: every item but a table whose
/// recorded view names a class of the same file.
pub open spec fn merged_keep(items: Seq<DocItemV>, it: DocItemV) -> bool {
    !(it.inner is Table && has_class_named(items, it.inner->Table_0.view))
}

/// The first `n` items with the redundant tables removed; the keep test
/// reads the whole original item list.
pub open spec fn spec_merge_rec(items: Seq<DocItemV>, n: int) -> Seq<DocItemV>
    decreases n,
{
    if n <= 0 || n > items.len() {
        Seq::<DocItemV>::empty()
    } else {
        let rest = spec_merge_rec(items, n - 1);
        if merged_keep(items, items[n - 1]) {
            rest.push(items[n - 1])
        } else {
            rest
        }
    }
}

/// The items of a file after the merge pass: every table whose recorded view
/// names a class of the same file is removed; the class keeps the
/// authoritative field and method set.
pub open spec fn spec_merge_tables(items: Seq<DocItemV>) -> Seq<DocItemV> {
    spec_merge_rec(items, items.len() as int)
}

/// Whether some item is a class named like `view`.
fn has_matching_class(items: &Vec<DocItem>, view: &String) -> (r: bool)
    ensures
        r == has_class_named(items.deep_view(), view@),
{
    let mut k: usize = 0;
    while k < items.len()
        invariant
            k <= items.len(),
            forall|q: int|
                0 <= q < k ==> !((#[trigger] items.deep_view()[q]).inner is Class
                    && items.deep_view()[q].name == view@),
        decreases items.len() - k,
    {
        let it = &items[k];
        if matches!(it.inner, DocItemEnum::Class(_)) && strutil::str_eq(
            it.name.as_str(),
            view.as_str(),
        ) {
            proof {
                assert(items.deep_view()[k as int].inner is Class);
                assert(items.deep_view()[k as int].name == view@);
            }
            return true;
        }
        proof {
            assert(items.deep_view()[k as int] == items@[k as int]@);
        }
        k += 1;
    }
    false
}

/// Remove every table whose recorded view names a class of the same file;
/// see [`spec_merge_tables`]. The pass reads no definitions; the parameter
/// keeps its place in the pass sequence.
pub fn merge_class_tables(meta_file: &mut MetaFile, _source_file: &SourceFile) -> (r: Result<
    (),
    DocError,
>)
    ensures
        r is Ok,
        final(meta_file)@.uri == old(meta_file)@.uri,
        final(meta_file)@.children == old(meta_file)@.children,
        final(meta_file)@.items == spec_merge_tables(old(meta_file)@.items),
{
    let mut tmp: Vec<DocItem> = Vec::new();
    core::mem::swap(&mut meta_file.items, &mut tmp);
    let ghost its0 = tmp.deep_view();
    proof {
        assert(its0 == old(meta_file)@.items);
    }

    let mut keep: Vec<bool> = Vec::new();
    let mut i: usize = 0;
    while i < tmp.len()
        invariant
            its0 == tmp.deep_view(),
            i <= tmp@.len(),
            keep@.len() == i,
            forall|q: int| 0 <= q < i ==> keep@[q] == merged_keep(its0, its0[q]),
        decreases tmp.len() - i,
    {
        let k = match &tmp[i].inner {
            DocItemEnum::Table(t) => !has_matching_class(&tmp, &t.view),
            _ => true,
        };
        proof {
            assert(its0[i as int] == tmp@[i as int]@);
            assert(k == merged_keep(its0, its0[i as int]));
        }
        keep.push(k);
        i += 1;
    }

    let ghost keepv = keep@;
    let mut out: Vec<DocItem> = Vec::new();
    let mut j: usize = 0;
    proof {
        assert(out.deep_view() =~= spec_merge_rec(its0, 0));
        assert(tmp.deep_view() =~= its0.skip(0));
    }
    while tmp.len() > 0
        invariant
            j == its0.len() - tmp@.len(),
            j <= its0.len(),
            j <= keepv.len(),
            keep@ == keepv,
            keepv.len() == its0.len(),
            forall|q: int| 0 <= q < keepv.len() ==> keepv[q] == merged_keep(its0, its0[q]),
            tmp.deep_view() == its0.skip(j as int),
            out.deep_view() == spec_merge_rec(its0, j as int),
        decreases tmp.len(),
    {
        let ghost pre = tmp.deep_view();
        let ghost preout = out.deep_view();
        let x = tmp.remove(0);
        proof {
            assert(pre[0] == its0[j as int]);
            assert(x@ == pre[0]);
            assert(tmp.deep_view() =~= pre.drop_first());
            assert(pre.drop_first() =~= its0.skip(j + 1));
        }
        if keep[j] {
            out.push(x);
            proof {
                assert(out.deep_view() =~= preout.push(its0[j as int]));
            }
        }
        let keep_len = keep.len();
        proof {
            assert(j < keep_len);
        }
        j += 1;
    }
    core::mem::swap(&mut meta_file.items, &mut out);
    proof {
        assert(final(meta_file)@.items == spec_merge_rec(its0, its0.len() as int));
    }
    Ok(())
}

/// Every item the merge keeps comes from the original list and passes the
/// keep test there.
proof fn lemma_merge_rec_elements(items: Seq<DocItemV>, n: int)
    requires
        0 <= n <= items.len(),
    ensures
        forall|j: int|
            0 <= j < spec_merge_rec(items, n).len() ==> merged_keep(
                items,
                #[trigger] spec_merge_rec(items, n)[j],
            ),
        forall|j: int|
            0 <= j < spec_merge_rec(items, n).len() ==> exists|k: int|
                0 <= k < n && #[trigger] spec_merge_rec(items, n)[j] == items[k],
    decreases n,
{
    if n > 0 {
        lemma_merge_rec_elements(items, n - 1);
        assert forall|j: int|
            0 <= j < spec_merge_rec(items, n).len() implies merged_keep(
            items,
            #[trigger] spec_merge_rec(items, n)[j],
        ) && (exists|k: int| 0 <= k < n && spec_merge_rec(items, n)[j] == items[k]) by {
            if j < spec_merge_rec(items, n - 1).len() {
                assert(spec_merge_rec(items, n)[j] == spec_merge_rec(items, n - 1)[j]);
            } else {
                assert(spec_merge_rec(items, n)[j] == items[n - 1]);
            }
        }
    }
}

/// An original item that passes the keep test survives the merge.
proof fn lemma_merge_rec_keeps(items: Seq<DocItemV>, n: int, k: int)
    requires
        0 <= k < n <= items.len(),
        merged_keep(items, items[k]),
    ensures
        spec_merge_rec(items, n).contains(items[k]),
    decreases n,
{
    if k == n - 1 {
        assert(spec_merge_rec(items, n).last() == items[k]);
        assert(spec_merge_rec(items, n)[spec_merge_rec(items, n).len() - 1] == items[k]);
    } else {
        lemma_merge_rec_keeps(items, n - 1, k);
        let rest = spec_merge_rec(items, n - 1);
        let w = choose|q: int| 0 <= q < rest.len() && rest[q] == items[k];
        assert(spec_merge_rec(items, n)[w] == items[k]);
    }
}

/// The merge keeps exactly the classes a file had.
proof fn lemma_merge_has_class(items: Seq<DocItemV>, name: Seq<char>)
    ensures
        has_class_named(spec_merge_tables(items), name) == has_class_named(items, name),
{
    let m = spec_merge_tables(items);
    lemma_merge_rec_elements(items, items.len() as int);
    if has_class_named(m, name) {
        let j = choose|j: int| 0 <= j < m.len() && (#[trigger] m[j]).inner is Class && m[j].name
            == name;
        let k = choose|k: int| 0 <= k < items.len() && m[j] == items[k];
        assert(items[k].inner is Class && items[k].name == name);
    }
    if has_class_named(items, name) {
        let k = choose|k: int|
            0 <= k < items.len() && (#[trigger] items[k]).inner is Class && items[k].name == name;
        assert(merged_keep(items, items[k]));
        lemma_merge_rec_keeps(items, items.len() as int, k);
        let j = choose|j: int| 0 <= j < m.len() && m[j] == items[k];
        assert(m[j].inner is Class && m[j].name == name);
    }
}

/// A list every item of which passes its own keep test merges to itself.
proof fn lemma_merge_rec_all_kept(s: Seq<DocItemV>, n: int)
    requires
        0 <= n <= s.len(),
        forall|k: int| 0 <= k < n ==> merged_keep(s, #[trigger] s[k]),
    ensures
        spec_merge_rec(s, n) == s.take(n),
    decreases n,
{
    if n > 0 {
        lemma_merge_rec_all_kept(s, n - 1);
        assert(spec_merge_rec(s, n) =~= s.take(n));
    } else {
        assert(spec_merge_rec(s, n) =~= s.take(n));
    }
}

/// A member assignment whose owner is already parsed as a class changes
/// nothing: the class captured its fields from its own field entries at
/// parsing, and the assignment is deliberately ignored.
pub proof fn lemma_set_field_class_owner_no_op(items: Seq<DocItemV>, d: DefinitionView)
    requires
        d.defines.len() >= 1,
        d.defines[0].define_type == DefineType::SetField || d.defines[0].define_type
            == DefineType::SetIndex,
        d.defines[0].extends.len() >= 1,
        strutil::first_index_of(d.name, '.') >= 0,
        keyed::index_by(items, doc_item_key(), d.name.take(strutil::first_index_of(d.name, '.')))
            >= 0,
        items[keyed::index_by(
            items,
            doc_item_key(),
            d.name.take(strutil::first_index_of(d.name, '.')),
        )].inner is Class,
    ensures
        spec_set_field_one(items, d) == Ok::<Seq<DocItemV>, DocErrorView>(items),
{
}

/// Running the table/class merge pass twice yields what one run yields: the
/// first run removes every table whose view names a class and keeps every
/// class, so the second run finds nothing left to remove.
pub proof fn lemma_merge_pass_idempotent(items: Seq<DocItemV>)
    ensures
        spec_merge_tables(spec_merge_tables(items)) == spec_merge_tables(items),
{
    let m = spec_merge_tables(items);
    lemma_merge_rec_elements(items, items.len() as int);
    assert forall|j: int| 0 <= j < m.len() implies merged_keep(m, #[trigger] m[j]) by {
        assert(merged_keep(items, m[j]));
        if m[j].inner is Table {
            lemma_merge_has_class(items, m[j].inner->Table_0.view);
        }
    }
    lemma_merge_rec_all_kept(m, m.len() as int);
    assert(m.take(m.len() as int) =~= m);
}

} // verus!
