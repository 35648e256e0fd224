use mooncats::doctree::{
    Argument, Class, DocItem, DocItemEnum, Enum, Field, Function, Global, NamedFunction, Return,
    Table, TypeAlias,
};
use mooncats::errors::ErrorKind;
use mooncats::json;
use mooncats::json::{
    ArgType, Define, DefineType, Definition, DefinitionType, Extends, ExtendsType, FieldType,
    FuncArg, FuncReturn,
};
use mooncats::location::{FileUri, Location, Position, Range};

fn range0() -> Range {
    Range::try_new(Position { line: 0, character: 0 }, Position { line: 0, character: 5 }).unwrap()
}

fn loc() -> Location {
    Location { file: FileUri::parse("file:///ws/a.lua").unwrap(), range: range0() }
}

fn ext(tag: ExtendsType, view: &str) -> Extends {
    Extends {
        range: range0(),
        extends_type: tag,
        view: view.to_string(),
        desc: None,
        rawdesc: None,
        is_async: None,
        deprecated: None,
        args: Vec::new(),
        returns: Vec::new(),
    }
}

fn define(kind: DefineType, extends: Vec<Extends>) -> Define {
    Define { define_type: kind, location: loc(), extends }
}

fn definition(
    name: &str,
    dtype: DefinitionType,
    defines: Vec<Define>,
    fields: Vec<json::Field>,
) -> Definition {
    Definition {
        name: name.to_string(),
        desc: None,
        definition_type: dtype,
        rawdesc: None,
        defines,
        fields,
    }
}

fn jfield(name: &str, ftype: FieldType, extends: Extends) -> json::Field {
    json::Field {
        name: name.to_string(),
        desc: None,
        rawdesc: None,
        location: loc(),
        field_type: ftype,
        visible: None,
        is_async: None,
        deprecated: None,
        extends,
    }
}

fn arg(name: Option<&str>, tag: ArgType, view: &str) -> FuncArg {
    FuncArg {
        name: name.map(|s| s.to_string()),
        arg_type: tag,
        desc: None,
        rawdesc: None,
        view: view.to_string(),
        range: range0(),
    }
}

fn ret(name: Option<&str>, view: &str) -> FuncReturn {
    FuncReturn { name: name.map(|s| s.to_string()), view: view.to_string(), desc: None, rawdesc: None }
}

#[test]
fn argument_parse_markers() {
    let a = Argument::parse(&arg(Some("x"), ArgType::DocType, "integer")).unwrap();
    assert_eq!(a.arg_type, "integer");
    assert_eq!(a.name, Some("x".to_string()));

    let s = Argument::parse(&arg(None, ArgType::SelfType, "ignored")).unwrap();
    assert_eq!(s.arg_type, "self");

    let v = Argument::parse(&arg(None, ArgType::VarArg, "ignored")).unwrap();
    assert_eq!(v.arg_type, "...");

    let l = Argument::parse(&arg(Some("y"), ArgType::Local, "string")).unwrap();
    assert_eq!(l.arg_type, "string");
}

#[test]
fn return_parse_keeps_view() {
    let r = Return::parse(&ret(Some("n"), "number")).unwrap();
    assert_eq!(r.return_type, "number");
    assert_eq!(r.name, Some("n".to_string()));
}

#[test]
fn function_parse_strips_method_marker() {
    let mut e = ext(ExtendsType::Function, "(method) fun(self): string");
    e.args = vec![arg(None, ArgType::SelfType, "Foo"), arg(Some("k"), ArgType::DocType, "string")];
    e.returns = vec![ret(None, "string")];
    let f = Function::parse(&e).unwrap();
    assert_eq!(f.view, "fun(self): string");
    assert_eq!(f.arguments.len(), 2);
    assert_eq!(f.arguments[0].arg_type, "self");
    assert_eq!(f.arguments[1].arg_type, "string");
    assert_eq!(f.returns.len(), 1);
    assert_eq!(f.returns[0].return_type, "string");
}

#[test]
fn function_parse_keeps_plain_view() {
    let e = ext(ExtendsType::Function, "fun(): nil");
    let f = Function::parse(&e).unwrap();
    assert_eq!(f.view, "fun(): nil");
}

#[test]
fn function_parse_rejects_non_function() {
    let e = ext(ExtendsType::Table, "table");
    let err = Function::parse(&e).unwrap_err();
    assert_eq!(err.kind, ErrorKind::UnexpectedExtendsType);
}

#[test]
fn named_function_parse_requires_set_method() {
    let f = jfield("go", FieldType::DocField, ext(ExtendsType::Function, "fun()"));
    let err = NamedFunction::parse(&f).unwrap_err();
    assert_eq!(err.kind, ErrorKind::UnexpectedFieldKind);

    let ok = NamedFunction::parse(&jfield("go", FieldType::SetMethod, ext(ExtendsType::Function, "fun()")))
        .unwrap();
    assert_eq!(ok.name, "go");
}

#[test]
fn field_parse_requires_field_kind() {
    let err = Field::parse(&jfield("m", FieldType::SetMethod, ext(ExtendsType::Function, "fun()")))
        .unwrap_err();
    assert_eq!(err.kind, ErrorKind::UnexpectedFieldKind);

    let ok = Field::parse(&jfield("count", FieldType::DocField, ext(ExtendsType::Integer, "integer")))
        .unwrap();
    assert_eq!(ok.name, "count");
    assert_eq!(ok.lua_type, "integer");
}

#[test]
fn type_alias_parse() {
    let d = definition(
        "Name",
        DefinitionType::Type,
        vec![define(DefineType::DocAlias, vec![ext(ExtendsType::DocType, "string|number")])],
        Vec::new(),
    );
    let a = TypeAlias::parse(&d).unwrap();
    assert_eq!(a.aliased_type, "string|number");
}

#[test]
fn type_alias_parse_errors() {
    let wrong_kind = definition(
        "Name",
        DefinitionType::Type,
        vec![define(DefineType::DocClass, Vec::new())],
        Vec::new(),
    );
    assert_eq!(TypeAlias::parse(&wrong_kind).unwrap_err().kind, ErrorKind::UnexpectedDefineKind);

    let no_extends = definition(
        "Name",
        DefinitionType::Type,
        vec![define(DefineType::DocAlias, Vec::new())],
        Vec::new(),
    );
    assert_eq!(TypeAlias::parse(&no_extends).unwrap_err().kind, ErrorKind::MissingExtends);

    let wrong_tag = definition(
        "Name",
        DefinitionType::Type,
        vec![define(DefineType::DocAlias, vec![ext(ExtendsType::Table, "table")])],
        Vec::new(),
    );
    assert_eq!(TypeAlias::parse(&wrong_tag).unwrap_err().kind, ErrorKind::UnexpectedExtendsType);
}

#[test]
fn enum_parse_starts_empty() {
    let d = definition(
        "Color",
        DefinitionType::Type,
        vec![define(DefineType::DocEnum, Vec::new())],
        Vec::new(),
    );
    let en = Enum::parse(&d).unwrap();
    assert!(en.fields.is_empty());
}

#[test]
fn table_parse_keeps_view() {
    let d = definition(
        "M",
        DefinitionType::Variable,
        vec![define(DefineType::SetGlobal, vec![ext(ExtendsType::Table, "M")])],
        Vec::new(),
    );
    let t = Table::parse(&d).unwrap();
    assert_eq!(t.view, "M");
    assert!(t.fields.is_empty());
    assert!(t.functions.is_empty());
}

#[test]
fn global_parse_primitive() {
    let d = definition(
        "VERSION",
        DefinitionType::Variable,
        vec![define(DefineType::SetGlobal, vec![ext(ExtendsType::String, "string")])],
        Vec::new(),
    );
    match Global::parse(&d).unwrap() {
        Global::Primitive(p) => assert_eq!(p.primitive_type, "string"),
        other => panic!("expected a primitive global, got {:?}", other),
    }
}

#[test]
fn global_parse_function_strips_method_marker() {
    let d = definition(
        "print_it",
        DefinitionType::Variable,
        vec![define(DefineType::SetGlobal, vec![ext(ExtendsType::Function, "(method) fun(x: integer)")])],
        Vec::new(),
    );
    match Global::parse(&d).unwrap() {
        Global::Function(f) => assert_eq!(f.view, "fun(x: integer)"),
        other => panic!("expected a function global, got {:?}", other),
    }
}

#[test]
fn class_parse_single_set_method() {
    let mut fun_ext = ext(ExtendsType::Function, "(method) fun(self, a, b)");
    fun_ext.args = vec![
        arg(None, ArgType::SelfType, "Foo"),
        arg(Some("a"), ArgType::DocType, "integer"),
        arg(Some("b"), ArgType::DocType, "string"),
    ];
    fun_ext.returns = vec![ret(Some("first"), "integer"), ret(Some("second"), "string")];
    let d = definition(
        "Foo",
        DefinitionType::Type,
        vec![define(DefineType::DocClass, Vec::new())],
        vec![jfield("go", FieldType::SetMethod, fun_ext)],
    );
    let c = Class::parse(&d).unwrap();
    assert!(c.fields.is_empty());
    assert_eq!(c.methods.len(), 1);
    let m = &c.methods[0];
    assert_eq!(m.name, "go");
    assert_eq!(m.function.arguments.len(), 3);
    assert_eq!(m.function.arguments[0].arg_type, "self");
    assert_eq!(m.function.arguments[1].name, Some("a".to_string()));
    assert_eq!(m.function.arguments[2].name, Some("b".to_string()));
    assert_eq!(m.function.returns.len(), 2);
    assert_eq!(m.function.returns[0].name, Some("first".to_string()));
    assert_eq!(m.function.returns[1].name, Some("second".to_string()));
}

#[test]
fn class_parse_collects_fields_and_merges_methods() {
    let d = definition(
        "Foo",
        DefinitionType::Type,
        vec![define(DefineType::DocClass, Vec::new())],
        vec![
            jfield("count", FieldType::DocField, ext(ExtendsType::Integer, "integer")),
            jfield("zeta", FieldType::SetMethod, ext(ExtendsType::Function, "fun(self)")),
            jfield("alpha", FieldType::SetField, ext(ExtendsType::Function, "fun()")),
        ],
    );
    let c = Class::parse(&d).unwrap();
    assert_eq!(c.fields.len(), 1);
    assert_eq!(c.fields[0].name, "count");
    // Methods come from both sources, merged by name.
    assert_eq!(c.methods.len(), 2);
    assert_eq!(c.methods[0].name, "alpha");
    assert_eq!(c.methods[1].name, "zeta");
}

#[test]
fn class_parse_rejects_variable_definitions() {
    let d = definition(
        "Foo",
        DefinitionType::Variable,
        vec![define(DefineType::DocClass, Vec::new())],
        Vec::new(),
    );
    assert_eq!(Class::parse(&d).unwrap_err().kind, ErrorKind::NotATypeDefinition);
}

#[test]
fn doc_item_parse_dispatches_on_head_kind() {
    let alias = definition(
        "A",
        DefinitionType::Type,
        vec![define(DefineType::DocAlias, vec![ext(ExtendsType::DocType, "string")])],
        Vec::new(),
    );
    let item = DocItem::parse(&alias).unwrap().unwrap();
    assert_eq!(item.name, "A");
    assert!(matches!(item.inner, DocItemEnum::TypeAlias(_)));

    let table = definition(
        "M",
        DefinitionType::Variable,
        vec![define(DefineType::SetGlobal, vec![ext(ExtendsType::Table, "M")])],
        Vec::new(),
    );
    let item = DocItem::parse(&table).unwrap().unwrap();
    assert!(matches!(item.inner, DocItemEnum::Table(_)));

    let attachment = definition(
        "M.x",
        DefinitionType::Variable,
        vec![define(DefineType::SetField, vec![ext(ExtendsType::Integer, "integer")])],
        Vec::new(),
    );
    assert!(DocItem::parse(&attachment).unwrap().is_none());
}

#[test]
fn doc_item_parse_rejects_doc_extends_on_globals() {
    let d = definition(
        "G",
        DefinitionType::Variable,
        vec![define(DefineType::SetGlobal, vec![ext(ExtendsType::DocType, "Foo")])],
        Vec::new(),
    );
    assert_eq!(DocItem::parse(&d).unwrap_err().kind, ErrorKind::UnexpectedDocExtends);

    let empty = definition(
        "G",
        DefinitionType::Variable,
        vec![define(DefineType::SetGlobal, Vec::new())],
        Vec::new(),
    );
    assert_eq!(DocItem::parse(&empty).unwrap_err().kind, ErrorKind::MissingExtends);
}
