use mooncats::builder::{build_docs, ItemPartition};
use mooncats::doctree::DocItemEnum;
use mooncats::json::{
    Define, DefineType, Definition, DefinitionType, Extends, ExtendsType,
};
use mooncats::location::{FileUri, Location, Position, Range};
use mooncats::workspace::Workspace;

fn uri(s: &str) -> FileUri {
    FileUri::parse(s).unwrap()
}

fn range0() -> Range {
    Range::try_new(Position { line: 1, character: 0 }, Position { line: 1, character: 8 }).unwrap()
}

fn here() -> Location {
    Location { file: uri("file:///ws/api.lua"), range: range0() }
}

fn ext(tag: ExtendsType, view: &str) -> Extends {
    Extends {
        range: range0(),
        extends_type: tag,
        view: view.to_string(),
        desc: None,
        rawdesc: None,
        is_async: None,
        deprecated: None,
        args: Vec::new(),
        returns: Vec::new(),
    }
}

fn definition(name: &str, dtype: DefinitionType, kind: DefineType, extends: Vec<Extends>) -> Definition {
    Definition {
        name: name.to_string(),
        desc: None,
        definition_type: dtype,
        rawdesc: None,
        defines: vec![Define { define_type: kind, location: here(), extends }],
        fields: Vec::new(),
    }
}

#[test]
fn end_to_end_small_batch() {
    // One class, one global function, and one enum filled by a table-field
    // reference, all declared in one file directly under the root.
    let docs = vec![
        definition("Widget", DefinitionType::Type, DefineType::DocClass, Vec::new()),
        definition(
            "spawn",
            DefinitionType::Variable,
            DefineType::SetGlobal,
            vec![ext(ExtendsType::Function, "fun(kind: string): Widget")],
        ),
        definition("Mode", DefinitionType::Type, DefineType::DocEnum, Vec::new()),
        definition("Mode.fast", DefinitionType::Variable, DefineType::TableField, Vec::new()),
    ];

    let mut workspace = Workspace::new(uri("file:///ws"));
    workspace.load(docs).unwrap();
    let tree = build_docs(workspace).unwrap();

    assert_eq!(tree.0.len(), 1);
    let file = &tree.0[0];
    assert_eq!(file.uri.file_name(), "api.lua");
    assert!(file.children.is_empty());
    assert_eq!(file.items.len(), 3);

    let partition = ItemPartition::from_items(file.uri.file_stem(), file.items.clone());
    assert_eq!(partition.name, "api");
    assert_eq!(partition.classes.len(), 1);
    assert_eq!(partition.classes[0].name, "Widget");
    assert_eq!(partition.globals.len(), 1);
    assert_eq!(partition.globals[0].name, "spawn");
    assert_eq!(partition.enums.len(), 1);
    assert_eq!(partition.enums[0].name, "Mode");
    assert!(partition.tables.is_empty());
    assert!(partition.type_aliases.is_empty());

    match &partition.enums[0].inner {
        DocItemEnum::Enum(en) => {
            assert_eq!(en.fields.len(), 1);
            assert_eq!(en.fields[0].name, "fast");
        },
        other => panic!("expected an enum, got {:?}", other),
    }
}
