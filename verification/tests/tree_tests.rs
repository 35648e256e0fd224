use mooncats::json::{Define, DefineType, Definition, DefinitionType};
use mooncats::location::{FileUri, Location, Position, Range};
use mooncats::tree::{build_tree, MetaFile};
use mooncats::workspace::{SourceFile, Workspace};

fn uri(s: &str) -> FileUri {
    FileUri::parse(s).unwrap()
}

fn range0() -> Range {
    Range::try_new(Position { line: 0, character: 0 }, Position { line: 0, character: 1 }).unwrap()
}

fn node(path: &str) -> MetaFile {
    MetaFile::new(uri(path))
}

#[test]
fn build_tree_nests_by_depth_and_stem() {
    let root = uri("file:///ws");
    let tree = build_tree(
        &root,
        vec![
            node("file:///ws/foo/alpha.lua"),
            node("file:///ws/foo.lua"),
            node("file:///ws/foo/beta.lua"),
        ],
    );
    assert_eq!(tree.0.len(), 1);
    let top = &tree.0[0];
    assert_eq!(top.uri.file_name(), "foo.lua");
    assert_eq!(top.children.len(), 2);
    // Children arrive in sort order: ascending by name.
    assert_eq!(top.children[0].uri.file_name(), "alpha.lua");
    assert_eq!(top.children[1].uri.file_name(), "beta.lua");
}

#[test]
fn build_tree_attaches_to_first_match_in_order() {
    // Two top-level files share the stem "foo"; the deeper file is a
    // plausible child of both. The first match in traversal order (by the
    // name sort: "foo.lua" before "foo.txt") takes it.
    let root = uri("file:///ws");
    let tree = build_tree(
        &root,
        vec![
            node("file:///ws/foo.txt"),
            node("file:///ws/foo.lua"),
            node("file:///ws/foo/inner.lua"),
        ],
    );
    assert_eq!(tree.0.len(), 2);
    assert_eq!(tree.0[0].uri.file_name(), "foo.lua");
    assert_eq!(tree.0[1].uri.file_name(), "foo.txt");
    assert_eq!(tree.0[0].children.len(), 1);
    assert_eq!(tree.0[0].children[0].uri.file_name(), "inner.lua");
    assert!(tree.0[1].children.is_empty());
}

#[test]
fn build_tree_drops_unparented_files() {
    // A deep file with no matching parent never becomes reachable.
    let root = uri("file:///ws");
    let tree = build_tree(
        &root,
        vec![node("file:///ws/top.lua"), node("file:///ws/orphan/lost.lua")],
    );
    assert_eq!(tree.0.len(), 1);
    assert_eq!(tree.0[0].uri.file_name(), "top.lua");
    assert!(tree.0[0].children.is_empty());
}

#[test]
fn workspace_load_groups_by_file_and_filters_root() {
    let mut workspace = Workspace::new(uri("file:///ws"));

    // One definition declared in two files, one of them outside the root.
    let multi = Definition {
        name: "Shared".to_string(),
        desc: None,
        definition_type: DefinitionType::Type,
        rawdesc: None,
        defines: vec![
            Define {
                define_type: DefineType::DocClass,
                location: Location { file: uri("file:///ws/a.lua"), range: range0() },
                extends: Vec::new(),
            },
            Define {
                define_type: DefineType::DocClass,
                location: Location { file: uri("file:///elsewhere/b.lua"), range: range0() },
                extends: Vec::new(),
            },
        ],
        fields: Vec::new(),
    };
    workspace.load(vec![multi]).unwrap();

    assert_eq!(workspace.files.len(), 1);
    let file = &workspace.files[0];
    assert_eq!(file.uri.as_path(), "/ws/a.lua");
    assert_eq!(file.definitions.len(), 1);
    // The copy kept only the define of this file.
    assert_eq!(file.definitions[0].defines.len(), 1);
    assert_eq!(file.definitions[0].defines[0].location.file.as_path(), "/ws/a.lua");
}

#[test]
fn workspace_sorted_files_orders_by_depth_then_name() {
    let mut workspace = Workspace::new(uri("file:///ws"));
    let defs = vec![
        ("file:///ws/sub/deep.lua", "Deep"),
        ("file:///ws/zz.lua", "Zed"),
        ("file:///ws/aa.lua", "Aye"),
    ];
    for (path, name) in defs {
        let d = Definition {
            name: name.to_string(),
            desc: None,
            definition_type: DefinitionType::Type,
            rawdesc: None,
            defines: vec![Define {
                define_type: DefineType::DocClass,
                location: Location { file: uri(path), range: range0() },
                extends: Vec::new(),
            }],
            fields: Vec::new(),
        };
        workspace.load(vec![d]).unwrap();
    }
    let sorted = workspace.sorted_files();
    let names: Vec<String> = sorted.iter().map(|f| f.uri.file_name()).collect();
    assert_eq!(names, vec!["aa.lua".to_string(), "zz.lua".to_string(), "deep.lua".to_string()]);
}

#[test]
fn source_file_rejects_definitions_of_other_files() {
    let mut file = SourceFile::new(uri("file:///ws/a.lua"), String::new());
    let d = Definition {
        name: "Foreign".to_string(),
        desc: None,
        definition_type: DefinitionType::Type,
        rawdesc: None,
        defines: vec![Define {
            define_type: DefineType::DocClass,
            location: Location { file: uri("file:///ws/other.lua"), range: range0() },
            extends: Vec::new(),
        }],
        fields: Vec::new(),
    };
    let err = file.add_definition(d).unwrap_err();
    assert_eq!(err.kind, mooncats::errors::ErrorKind::NoDefinesForFile);
    assert_eq!(err.name, "Foreign");
}
