use mooncats::doctree::DocItemEnum;
use mooncats::errors::ErrorKind;
use mooncats::json;
use mooncats::json::{
    Define, DefineType, Definition, DefinitionType, Extends, ExtendsType, FieldType,
};
use mooncats::location::{FileUri, Location, Position, Range};
use mooncats::passes::{merge_class_tables, parse_items, parse_set_fields, parse_table_fields};
use mooncats::tree::MetaFile;
use mooncats::workspace::SourceFile;

fn range0() -> Range {
    Range::try_new(Position { line: 0, character: 0 }, Position { line: 0, character: 5 }).unwrap()
}

fn uri(s: &str) -> FileUri {
    FileUri::parse(s).unwrap()
}

fn loc() -> Location {
    Location { file: uri("file:///ws/a.lua"), range: range0() }
}

fn ext(tag: ExtendsType, view: &str) -> Extends {
    Extends {
        range: range0(),
        extends_type: tag,
        view: view.to_string(),
        desc: None,
        rawdesc: None,
        is_async: None,
        deprecated: None,
        args: Vec::new(),
        returns: Vec::new(),
    }
}

fn definition(name: &str, dtype: DefinitionType, kind: DefineType, extends: Vec<Extends>) -> Definition {
    Definition {
        name: name.to_string(),
        desc: None,
        definition_type: dtype,
        rawdesc: None,
        defines: vec![Define { define_type: kind, location: loc(), extends }],
        fields: Vec::new(),
    }
}

fn class_def(name: &str) -> Definition {
    definition(name, DefinitionType::Type, DefineType::DocClass, Vec::new())
}

fn table_def(name: &str, view: &str) -> Definition {
    definition(name, DefinitionType::Variable, DefineType::SetGlobal, vec![ext(ExtendsType::Table, view)])
}

fn enum_def(name: &str) -> Definition {
    definition(name, DefinitionType::Type, DefineType::DocEnum, Vec::new())
}

fn source(defs: Vec<Definition>) -> SourceFile {
    let mut file = SourceFile::new(uri("file:///ws/a.lua"), String::new());
    for d in defs {
        file.add_definition(d).unwrap();
    }
    file
}

fn run_pass_one(file: &SourceFile) -> MetaFile {
    let mut meta = MetaFile::new(uri("file:///ws/a.lua"));
    parse_items(&mut meta, file).unwrap();
    meta
}

#[test]
fn parse_items_collects_primary_kinds() {
    let file = source(vec![
        class_def("Foo"),
        table_def("M", "M"),
        definition("M.x", DefinitionType::Variable, DefineType::SetField, vec![ext(ExtendsType::Integer, "integer")]),
    ]);
    let meta = run_pass_one(&file);
    assert_eq!(meta.items.len(), 2);
    assert_eq!(meta.items[0].name, "Foo");
    assert_eq!(meta.items[1].name, "M");
}

#[test]
fn parse_items_last_write_wins() {
    let file = source(vec![table_def("X", "first"), table_def("X", "second")]);
    let meta = run_pass_one(&file);
    assert_eq!(meta.items.len(), 1);
    match &meta.items[0].inner {
        DocItemEnum::Table(t) => assert_eq!(t.view, "second"),
        other => panic!("expected a table, got {:?}", other),
    }
}

#[test]
fn set_fields_attaches_to_tables() {
    let file = source(vec![
        table_def("M", "M"),
        definition("M.count", DefinitionType::Variable, DefineType::SetField, vec![ext(ExtendsType::Integer, "integer")]),
        definition("M.run", DefinitionType::Variable, DefineType::SetField, vec![ext(ExtendsType::Function, "fun()")]),
    ]);
    let mut meta = run_pass_one(&file);
    parse_set_fields(&mut meta, &file).unwrap();
    match &meta.items[0].inner {
        DocItemEnum::Table(t) => {
            assert_eq!(t.fields.len(), 1);
            assert_eq!(t.fields[0].name, "count");
            assert_eq!(t.fields[0].lua_type, "integer");
            assert_eq!(t.functions.len(), 1);
            assert_eq!(t.functions[0].name, "run");
        },
        other => panic!("expected a table, got {:?}", other),
    }
}

#[test]
fn set_fields_skips_missing_owner() {
    let file = source(vec![definition(
        "Missing.x",
        DefinitionType::Variable,
        DefineType::SetField,
        vec![ext(ExtendsType::Integer, "integer")],
    )]);
    let mut meta = run_pass_one(&file);
    parse_set_fields(&mut meta, &file).unwrap();
    assert!(meta.items.is_empty());
}

#[test]
fn set_fields_leaves_classes_alone() {
    // The deliberate no-op: a class already captured its fields from its own
    // field entries, so the assignment must not add one.
    let file = source(vec![
        class_def("Foo"),
        definition("Foo.bar", DefinitionType::Variable, DefineType::SetField, vec![ext(ExtendsType::Table, "table")]),
    ]);
    let mut meta = run_pass_one(&file);
    let before = meta.items.clone();
    parse_set_fields(&mut meta, &file).unwrap();
    assert_eq!(meta.items, before);
    match &meta.items[0].inner {
        DocItemEnum::Class(c) => assert!(c.fields.is_empty()),
        other => panic!("expected a class, got {:?}", other),
    }
}

#[test]
fn set_fields_error_cases() {
    let no_extends = source(vec![
        table_def("M", "M"),
        definition("M.x", DefinitionType::Variable, DefineType::SetField, Vec::new()),
    ]);
    let mut meta = run_pass_one(&no_extends);
    let err = parse_set_fields(&mut meta, &no_extends).unwrap_err();
    assert_eq!(err.kind, ErrorKind::MissingExtends);

    let no_dot = source(vec![definition(
        "nodot",
        DefinitionType::Variable,
        DefineType::SetField,
        vec![ext(ExtendsType::Integer, "integer")],
    )]);
    let mut meta = run_pass_one(&no_dot);
    let err = parse_set_fields(&mut meta, &no_dot).unwrap_err();
    assert_eq!(err.kind, ErrorKind::InvalidMemberName);

    let doc_tag = source(vec![
        table_def("M", "M"),
        definition("M.x", DefinitionType::Variable, DefineType::SetIndex, vec![ext(ExtendsType::DocType, "Foo")]),
    ]);
    let mut meta = run_pass_one(&doc_tag);
    let err = parse_set_fields(&mut meta, &doc_tag).unwrap_err();
    assert_eq!(err.kind, ErrorKind::UnexpectedMemberType);

    let enum_owner = source(vec![
        enum_def("E"),
        definition("E.x", DefinitionType::Variable, DefineType::SetField, vec![ext(ExtendsType::Integer, "integer")]),
    ]);
    let mut meta = run_pass_one(&enum_owner);
    let err = parse_set_fields(&mut meta, &enum_owner).unwrap_err();
    assert_eq!(err.kind, ErrorKind::MemberOwnerNotTable);
}

#[test]
fn table_fields_attach_to_enums() {
    let file = source(vec![
        enum_def("Color"),
        definition("Color.red", DefinitionType::Variable, DefineType::TableField, Vec::new()),
        definition("Color.blue", DefinitionType::Variable, DefineType::TableField, Vec::new()),
    ]);
    let mut meta = run_pass_one(&file);
    parse_table_fields(&mut meta, &file).unwrap();
    match &meta.items[0].inner {
        DocItemEnum::Enum(en) => {
            assert_eq!(en.fields.len(), 2);
            assert_eq!(en.fields[0].name, "red");
            // The input schema carries no types for enum values.
            assert_eq!(en.fields[0].lua_type, "");
            assert_eq!(en.fields[1].name, "blue");
        },
        other => panic!("expected an enum, got {:?}", other),
    }
}

#[test]
fn table_fields_reject_non_enum_owner() {
    let file = source(vec![
        table_def("M", "M"),
        definition("M.red", DefinitionType::Variable, DefineType::TableField, Vec::new()),
    ]);
    let mut meta = run_pass_one(&file);
    let err = parse_table_fields(&mut meta, &file).unwrap_err();
    assert_eq!(err.kind, ErrorKind::MemberOwnerNotEnum);
}

#[test]
fn table_fields_skip_missing_owner() {
    let file = source(vec![definition(
        "Missing.red",
        DefinitionType::Variable,
        DefineType::TableField,
        Vec::new(),
    )]);
    let mut meta = run_pass_one(&file);
    parse_table_fields(&mut meta, &file).unwrap();
    assert!(meta.items.is_empty());
}

#[test]
fn merge_removes_redundant_tables() {
    let file = source(vec![class_def("Foo"), table_def("FooTable", "Foo")]);
    let mut meta = run_pass_one(&file);
    assert_eq!(meta.items.len(), 2);
    merge_class_tables(&mut meta, &file).unwrap();
    assert_eq!(meta.items.len(), 1);
    assert_eq!(meta.items[0].name, "Foo");
    assert!(matches!(meta.items[0].inner, DocItemEnum::Class(_)));
}

#[test]
fn merge_pass_is_idempotent_on_a_file() {
    let file = source(vec![
        class_def("Foo"),
        table_def("FooTable", "Foo"),
        table_def("Other", "Unrelated"),
    ]);
    let mut meta = run_pass_one(&file);
    merge_class_tables(&mut meta, &file).unwrap();
    let once = meta.items.clone();
    merge_class_tables(&mut meta, &file).unwrap();
    assert_eq!(meta.items, once);
    assert_eq!(meta.items.len(), 2);
}

#[test]
fn merge_without_match_is_a_no_op() {
    let file = source(vec![table_def("M", "M"), class_def("Foo")]);
    let mut meta = run_pass_one(&file);
    let before = meta.items.clone();
    merge_class_tables(&mut meta, &file).unwrap();
    assert_eq!(meta.items, before);
}
