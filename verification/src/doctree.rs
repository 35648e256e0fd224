//! The typed documentation-item model, and the parsing of one input record
//! into one item.
//!
//! A record's head define drives its classification: doc constructs become
//! classes, enums and type aliases; global assignments become tables or
//! globals; attachment kinds yield nothing here and are consumed by the
//! later passes.

use crate::errors::{DocError, DocErrorView, ErrorKind};
use crate::json;
use crate::keyed;
use crate::json::{ArgType, DefineType, Definition, DefinitionType, Extends, ExtendsType, FieldType};
use crate::location::Range;
use crate::strutil;
use vstd::prelude::*;
use vstd::string::*;

verus! {

/// The display text that stands for a method receiver argument.
pub open spec fn self_marker() -> Seq<char> {
    seq!['s', 'e', 'l', 'f']
}

/// The display text that stands for a vararg argument.
pub open spec fn vararg_marker() -> Seq<char> {
    seq!['.', '.', '.']
}

/// The cosmetic prefix that method-style call signatures carry.
pub open spec fn method_prefix() -> Seq<char> {
    seq!['(', 'm', 'e', 't', 'h', 'o', 'd', ')', ' ']
}

/// A rendered signature with any leading method marker removed.
pub open spec fn spec_strip_method_prefix(v: Seq<char>) -> Seq<char> {
    if method_prefix().is_prefix_of(v) {
        v.skip(method_prefix().len() as int)
    } else {
        v
    }
}

/// A named field of a class, table or enum.
#[derive(Debug, Clone, PartialEq)]
pub struct Field {
    pub name: String,
    pub description: Option<String>,
    pub lua_type: String,
}

/// Mathematical model of a `Field`.
pub ghost struct FieldV {
    pub name: Seq<char>,
    pub description: Option<Seq<char>>,
    pub lua_type: Seq<char>,
}

impl View for Field {
    type V = FieldV;

    open spec fn view(&self) -> FieldV {
        FieldV {
            name: self.name@,
            description: self.description.deep_view(),
            lua_type: self.lua_type@,
        }
    }
}

impl DeepView for Field {
    type V = FieldV;

    open spec fn deep_view(&self) -> FieldV {
        self.view()
    }
}

/// One argument of a documented function.
#[derive(Debug, Clone, PartialEq)]
pub struct Argument {
    pub name: Option<String>,
    pub description: Option<String>,
    pub arg_type: String,
}

/// Mathematical model of an `Argument`.
pub ghost struct ArgumentV {
    pub name: Option<Seq<char>>,
    pub description: Option<Seq<char>>,
    pub arg_type: Seq<char>,
}

impl View for Argument {
    type V = ArgumentV;

    open spec fn view(&self) -> ArgumentV {
        ArgumentV {
            name: self.name.deep_view(),
            description: self.description.deep_view(),
            arg_type: self.arg_type@,
        }
    }
}

impl DeepView for Argument {
    type V = ArgumentV;

    open spec fn deep_view(&self) -> ArgumentV {
        self.view()
    }
}

/// One return value of a documented function.
#[derive(Debug, Clone, PartialEq)]
pub struct Return {
    pub name: Option<String>,
    pub return_type: String,
    pub description: Option<String>,
}

/// Mathematical model of a `Return`.
pub ghost struct ReturnV {
    pub name: Option<Seq<char>>,
    pub return_type: Seq<char>,
    pub description: Option<Seq<char>>,
}

impl View for Return {
    type V = ReturnV;

    open spec fn view(&self) -> ReturnV {
        ReturnV {
            name: self.name.deep_view(),
            return_type: self.return_type@,
            description: self.description.deep_view(),
        }
    }
}

impl DeepView for Return {
    type V = ReturnV;

    open spec fn deep_view(&self) -> ReturnV {
        self.view()
    }
}

/// A documented function: its display signature, arguments and returns, in
/// source order.
#[derive(Debug, Clone, PartialEq)]
pub struct Function {
    pub description: Option<String>,
    pub view: String,
    pub arguments: Vec<Argument>,
    pub returns: Vec<Return>,
}

/// Mathematical model of a `Function`.
pub ghost struct FunctionV {
    pub description: Option<Seq<char>>,
    pub view: Seq<char>,
    pub arguments: Seq<ArgumentV>,
    pub returns: Seq<ReturnV>,
}

impl View for Function {
    type V = FunctionV;

    open spec fn view(&self) -> FunctionV {
        FunctionV {
            description: self.description.deep_view(),
            view: self.view@,
            arguments: self.arguments.deep_view(),
            returns: self.returns.deep_view(),
        }
    }
}

impl DeepView for Function {
    type V = FunctionV;

    open spec fn deep_view(&self) -> FunctionV {
        self.view()
    }
}

/// A function bound to the name it is assigned to.
#[derive(Debug, Clone, PartialEq)]
pub struct NamedFunction {
    pub name: String,
    pub function: Function,
}

/// Mathematical model of a `NamedFunction`.
pub ghost struct NamedFunctionV {
    pub name: Seq<char>,
    pub function: FunctionV,
}

impl View for NamedFunction {
    type V = NamedFunctionV;

    open spec fn view(&self) -> NamedFunctionV {
        NamedFunctionV { name: self.name@, function: self.function@ }
    }
}

impl DeepView for NamedFunction {
    type V = NamedFunctionV;

    open spec fn deep_view(&self) -> NamedFunctionV {
        self.view()
    }
}

/// A class: its directly declared fields and its methods.
#[derive(Debug, Clone, PartialEq)]
pub struct Class {
    pub fields: Vec<Field>,
    pub methods: Vec<NamedFunction>,
}

/// Mathematical model of a `Class`.
pub ghost struct ClassV {
    pub fields: Seq<FieldV>,
    pub methods: Seq<NamedFunctionV>,
}

impl View for Class {
    type V = ClassV;

    open spec fn view(&self) -> ClassV {
        ClassV { fields: self.fields.deep_view(), methods: self.methods.deep_view() }
    }
}

impl DeepView for Class {
    type V = ClassV;

    open spec fn deep_view(&self) -> ClassV {
        self.view()
    }
}

/// A table: its rendered type view and its fields and functions, keyed by
/// name (later writes replace earlier ones).
#[derive(Debug, Clone, PartialEq)]
pub struct Table {
    pub view: String,
    pub fields: Vec<Field>,
    pub functions: Vec<NamedFunction>,
}

/// Mathematical model of a `Table`.
pub ghost struct TableV {
    pub view: Seq<char>,
    pub fields: Seq<FieldV>,
    pub functions: Seq<NamedFunctionV>,
}

impl View for Table {
    type V = TableV;

    open spec fn view(&self) -> TableV {
        TableV {
            view: self.view@,
            fields: self.fields.deep_view(),
            functions: self.functions.deep_view(),
        }
    }
}

impl DeepView for Table {
    type V = TableV;

    open spec fn deep_view(&self) -> TableV {
        self.view()
    }
}

/// A type alias and the rendered type it stands for.
#[derive(Debug, Clone, PartialEq)]
pub struct TypeAlias {
    pub aliased_type: String,
}

/// Mathematical model of a `TypeAlias`.
pub ghost struct TypeAliasV {
    pub aliased_type: Seq<char>,
}

impl View for TypeAlias {
    type V = TypeAliasV;

    open spec fn view(&self) -> TypeAliasV {
        TypeAliasV { aliased_type: self.aliased_type@ }
    }
}

impl DeepView for TypeAlias {
    type V = TypeAliasV;

    open spec fn deep_view(&self) -> TypeAliasV {
        self.view()
    }
}

/// An enum and its fields, keyed by name.
#[derive(Debug, Clone, PartialEq)]
pub struct Enum {
    pub fields: Vec<Field>,
}

/// Mathematical model of an `Enum`.
pub ghost struct EnumV {
    pub fields: Seq<FieldV>,
}

impl View for Enum {
    type V = EnumV;

    open spec fn view(&self) -> EnumV {
        EnumV { fields: self.fields.deep_view() }
    }
}

impl DeepView for Enum {
    type V = EnumV;

    open spec fn deep_view(&self) -> EnumV {
        self.view()
    }
}

/// A global of primitive type, carrying its rendered type text.
#[derive(Debug, Clone, PartialEq)]
pub struct PrimitiveGlobal {
    pub primitive_type: String,
}

/// Mathematical model of a `PrimitiveGlobal`.
pub ghost struct PrimitiveGlobalV {
    pub primitive_type: Seq<char>,
}

impl View for PrimitiveGlobal {
    type V = PrimitiveGlobalV;

    open spec fn view(&self) -> PrimitiveGlobalV {
        PrimitiveGlobalV { primitive_type: self.primitive_type@ }
    }
}

impl DeepView for PrimitiveGlobal {
    type V = PrimitiveGlobalV;

    open spec fn deep_view(&self) -> PrimitiveGlobalV {
        self.view()
    }
}

/// A global assignment: either a primitive value or a function.
#[derive(Debug, Clone, PartialEq)]
pub enum Global {
    Primitive(PrimitiveGlobal),
    Function(Function),
}

/// Mathematical model of a `Global`.
pub ghost enum GlobalV {
    Primitive(PrimitiveGlobalV),
    Function(FunctionV),
}

impl View for Global {
    type V = GlobalV;

    open spec fn view(&self) -> GlobalV {
        match self {
            Global::Primitive(p) => GlobalV::Primitive(p@),
            Global::Function(f) => GlobalV::Function(f@),
        }
    }
}

impl DeepView for Global {
    type V = GlobalV;

    open spec fn deep_view(&self) -> GlobalV {
        self.view()
    }
}

/// The tagged body of a documentation item.
#[derive(Debug, Clone, PartialEq)]
pub enum DocItemEnum {
    Class(Class),
    Table(Table),
    TypeAlias(TypeAlias),
    Enum(Enum),
    Global(Global),
}

/// Mathematical model of a `DocItemEnum`.
pub ghost enum DocItemEnumV {
    Class(ClassV),
    Table(TableV),
    TypeAlias(TypeAliasV),
    Enum(EnumV),
    Global(GlobalV),
}

impl View for DocItemEnum {
    type V = DocItemEnumV;

    open spec fn view(&self) -> DocItemEnumV {
        match self {
            DocItemEnum::Class(c) => DocItemEnumV::Class(c@),
            DocItemEnum::Table(t) => DocItemEnumV::Table(t@),
            DocItemEnum::TypeAlias(a) => DocItemEnumV::TypeAlias(a@),
            DocItemEnum::Enum(e) => DocItemEnumV::Enum(e@),
            DocItemEnum::Global(g) => DocItemEnumV::Global(g@),
        }
    }
}

impl DeepView for DocItemEnum {
    type V = DocItemEnumV;

    open spec fn deep_view(&self) -> DocItemEnumV {
        self.view()
    }
}

/// One named top-level documentation item.
#[derive(Debug, Clone, PartialEq)]
pub struct DocItem {
    pub name: String,
    pub description: Option<String>,
    pub range: Range,
    pub inner: DocItemEnum,
}

/// Mathematical model of a `DocItem`.
pub ghost struct DocItemV {
    pub name: Seq<char>,
    pub description: Option<Seq<char>>,
    pub range: Range,
    pub inner: DocItemEnumV,
}

impl View for DocItem {
    type V = DocItemV;

    open spec fn view(&self) -> DocItemV {
        DocItemV {
            name: self.name@,
            description: self.description.deep_view(),
            range: self.range,
            inner: self.inner@,
        }
    }
}

impl DeepView for DocItem {
    type V = DocItemV;

    open spec fn deep_view(&self) -> DocItemV {
        self.view()
    }
}

/// What parsing one function argument yields: a rendered type for typed and
/// local arguments, a receiver marker for `self`, a vararg marker for `...`.
pub open spec fn spec_parse_argument(a: json::FuncArgView) -> ArgumentV {
    ArgumentV {
        name: a.name,
        description: a.rawdesc,
        arg_type: match a.arg_type {
            ArgType::DocType => a.view,
            ArgType::Local => a.view,
            ArgType::SelfType => self_marker(),
            ArgType::VarArg => vararg_marker(),
        },
    }
}

/// What parsing one function return yields.
pub open spec fn spec_parse_return(r: json::FuncReturnView) -> ReturnV {
    ReturnV { name: r.name, return_type: r.view, description: r.rawdesc }
}

/// What parsing a function-typed extends entry yields: arguments and returns
/// in source order, and the display view with any method marker stripped.
/// Any other extends entry is refused.
pub open spec fn spec_parse_function(e: json::ExtendsView) -> Result<FunctionV, DocErrorView> {
    if e.extends_type != ExtendsType::Function {
        Err(
            DocErrorView {
                kind: ErrorKind::UnexpectedExtendsType,
                name: Seq::<char>::empty(),
            },
        )
    } else {
        Ok(
            FunctionV {
                description: e.rawdesc,
                view: spec_strip_method_prefix(e.view),
                arguments: e.args.map_values(|a: json::FuncArgView| spec_parse_argument(a)),
                returns: e.returns.map_values(|r: json::FuncReturnView| spec_parse_return(r)),
            },
        )
    }
}

/// What parsing a set-method field entry yields: the field's function under
/// the field's name. Entries of any other kind are refused.
pub open spec fn spec_parse_named_function(f: json::FieldView) -> Result<
    NamedFunctionV,
    DocErrorView,
> {
    if f.field_type != FieldType::SetMethod {
        Err(DocErrorView { kind: ErrorKind::UnexpectedFieldKind, name: f.name })
    } else {
        match spec_parse_function(f.extends) {
            Ok(func) => Ok(NamedFunctionV { name: f.name, function: func }),
            Err(e) => Err(e),
        }
    }
}

/// What parsing a doc-field or set-field entry yields: a named field typed by
/// the entry's rendered view. Entries of any other kind are refused.
pub open spec fn spec_parse_item_field(f: json::FieldView) -> Result<FieldV, DocErrorView> {
    if f.field_type == FieldType::DocField || f.field_type == FieldType::SetField {
        Ok(FieldV { name: f.name, description: f.rawdesc, lua_type: f.extends.view })
    } else {
        Err(DocErrorView { kind: ErrorKind::UnexpectedFieldKind, name: f.name })
    }
}

impl Argument {
    /// Parse one function argument; see [`spec_parse_argument`].
    pub fn parse(arg: &json::FuncArg) -> (r: Result<Argument, DocError>)
        ensures
            r matches Ok(a) && a@ == spec_parse_argument(arg@),
    {
        proof {
            reveal_strlit("self");
            reveal_strlit("...");
            assert("self"@ =~= self_marker());
            assert("..."@ =~= vararg_marker());
        }
        let arg_type = match arg.arg_type {
            ArgType::DocType => arg.view.clone(),
            ArgType::Local => arg.view.clone(),
            ArgType::SelfType => "self".to_owned(),
            ArgType::VarArg => "...".to_owned(),
        };

        Ok(
            Self {
                name: strutil::clone_opt_string(&arg.name),
                description: strutil::clone_opt_string(&arg.rawdesc),
                arg_type,
            },
        )
    }
}

impl Return {
    /// Parse one function return; see [`spec_parse_return`].
    pub fn parse(ret: &json::FuncReturn) -> (r: Result<Return, DocError>)
        ensures
            r matches Ok(v) && v@ == spec_parse_return(ret@),
    {
        Ok(
            Self {
                name: strutil::clone_opt_string(&ret.name),
                description: strutil::clone_opt_string(&ret.rawdesc),
                return_type: ret.view.clone(),
            },
        )
    }
}

impl Function {
    /// Parse a function-typed extends entry; see [`spec_parse_function`].
    pub fn parse(extends: &Extends) -> (r: Result<Function, DocError>)
        ensures
            match r {
                Ok(f) => spec_parse_function(extends@) == Ok::<FunctionV, DocErrorView>(f@),
                Err(e) => spec_parse_function(extends@) == Err::<FunctionV, DocErrorView>(e@),
            },
    {
        if !matches!(extends.extends_type, ExtendsType::Function) {
            return Err(DocError::unnamed(ErrorKind::UnexpectedExtendsType));
        }

        let mut arguments: Vec<Argument> = Vec::new();
        let mut i: usize = 0;
        while i < extends.args.len()
            invariant
                i <= extends.args.len(),
                arguments.len() == i,
                forall|k: int|
                    0 <= k < i ==> (#[trigger] arguments@[k])@ == spec_parse_argument(
                        extends.args@[k]@,
                    ),
            decreases extends.args.len() - i,
        {
            let a = match Argument::parse(&extends.args[i]) {
                Ok(a) => a,
                Err(e) => {
                    return Err(e);
                },
            };
            arguments.push(a);
            i += 1;
        }

        let mut rets: Vec<Return> = Vec::new();
        let mut j: usize = 0;
        while j < extends.returns.len()
            invariant
                j <= extends.returns.len(),
                rets.len() == j,
                forall|k: int|
                    0 <= k < j ==> (#[trigger] rets@[k])@ == spec_parse_return(
                        extends.returns@[k]@,
                    ),
            decreases extends.returns.len() - j,
        {
            let v = match Return::parse(&extends.returns[j]) {
                Ok(v) => v,
                Err(e) => {
                    return Err(e);
                },
            };
            rets.push(v);
            j += 1;
        }

        proof {
            reveal_strlit("(method) ");
            assert("(method) "@ =~= method_prefix());
        }
        let n = strutil::str_len(extends.view.as_str());
        let view = if strutil::str_starts_with(extends.view.as_str(), "(method) ") {
            strutil::substring(extends.view.as_str(), 9, n)
        } else {
            extends.view.clone()
        };
        proof {
            if method_prefix().is_prefix_of(extends.view@) {
                assert(extends.view@.subrange(9, extends.view@.len() as int) =~= extends.view@.skip(
                    9,
                ));
            }
            assert(arguments.deep_view() =~= extends.args.deep_view().map_values(
                |a: json::FuncArgView| spec_parse_argument(a),
            ));
            assert(rets.deep_view() =~= extends.returns.deep_view().map_values(
                |r: json::FuncReturnView| spec_parse_return(r),
            ));
        }

        Ok(
            Self {
                description: strutil::clone_opt_string(&extends.rawdesc),
                view,
                arguments,
                returns: rets,
            },
        )
    }
}

impl NamedFunction {
    /// Parse a set-method field entry; see [`spec_parse_named_function`].
    pub fn parse(field: &json::Field) -> (r: Result<NamedFunction, DocError>)
        ensures
            match r {
                Ok(nf) => spec_parse_named_function(field@) == Ok::<
                    NamedFunctionV,
                    DocErrorView,
                >(nf@),
                Err(e) => spec_parse_named_function(field@) == Err::<
                    NamedFunctionV,
                    DocErrorView,
                >(e@),
            },
    {
        if !matches!(field.field_type, FieldType::SetMethod) {
            return Err(DocError::new(ErrorKind::UnexpectedFieldKind, &field.name));
        }
        match Function::parse(&field.extends) {
            Ok(function) => Ok(NamedFunction { name: field.name.clone(), function }),
            Err(e) => Err(e),
        }
    }
}

impl Field {
    /// Parse a doc-field or set-field entry; see [`spec_parse_item_field`].
    pub fn parse(field: &json::Field) -> (r: Result<Field, DocError>)
        ensures
            match r {
                Ok(f) => spec_parse_item_field(field@) == Ok::<FieldV, DocErrorView>(f@),
                Err(e) => spec_parse_item_field(field@) == Err::<FieldV, DocErrorView>(e@),
            },
    {
        if !(matches!(field.field_type, FieldType::DocField) || matches!(
            field.field_type,
            FieldType::SetField,
        )) {
            return Err(DocError::new(ErrorKind::UnexpectedFieldKind, &field.name));
        }

        Ok(
            Field {
                name: field.name.clone(),
                description: strutil::clone_opt_string(&field.rawdesc),
                lua_type: field.extends.view.clone(),
            },
        )
    }
}

/// What parsing a type alias yields: the rendered type of its single
/// doc-type extends entry. A definition whose head is not a doc-alias, has
/// no extends, or extends something other than a doc-type is refused.
pub open spec fn spec_parse_type_alias(d: json::DefinitionView) -> Result<
    TypeAliasV,
    DocErrorView,
> {
    let head = d.defines[0];
    if head.define_type != DefineType::DocAlias {
        Err(DocErrorView { kind: ErrorKind::UnexpectedDefineKind, name: d.name })
    } else if head.extends.len() == 0 {
        Err(DocErrorView { kind: ErrorKind::MissingExtends, name: d.name })
    } else if head.extends[0].extends_type != ExtendsType::DocType {
        Err(DocErrorView { kind: ErrorKind::UnexpectedExtendsType, name: d.name })
    } else {
        Ok(TypeAliasV { aliased_type: head.extends[0].view })
    }
}

impl TypeAlias {
    /// Parse a type alias; see [`spec_parse_type_alias`].
    pub fn parse(definition: &Definition) -> (r: Result<TypeAlias, DocError>)
        requires
            definition.wf(),
        ensures
            match r {
                Ok(a) => spec_parse_type_alias(definition@) == Ok::<TypeAliasV, DocErrorView>(a@),
                Err(e) => spec_parse_type_alias(definition@) == Err::<TypeAliasV, DocErrorView>(
                    e@,
                ),
            },
    {
        let head = &definition.defines[0];
        if !matches!(head.define_type, DefineType::DocAlias) {
            return Err(DocError::new(ErrorKind::UnexpectedDefineKind, &definition.name));
        }
        if head.extends.len() == 0 {
            return Err(DocError::new(ErrorKind::MissingExtends, &definition.name));
        }
        if !matches!(head.extends[0].extends_type, ExtendsType::DocType) {
            return Err(DocError::new(ErrorKind::UnexpectedExtendsType, &definition.name));
        }

        Ok(Self { aliased_type: head.extends[0].view.clone() })
    }
}

/// What parsing an enum yields: an enum with no fields yet (they arrive in
/// the table-field pass). A definition whose head is not a doc-enum is
/// refused.
pub open spec fn spec_parse_enum(d: json::DefinitionView) -> Result<EnumV, DocErrorView> {
    if d.defines[0].define_type != DefineType::DocEnum {
        Err(DocErrorView { kind: ErrorKind::UnexpectedDefineKind, name: d.name })
    } else {
        Ok(EnumV { fields: Seq::<FieldV>::empty() })
    }
}

impl Enum {
    /// Parse an enum declaration; see [`spec_parse_enum`].
    pub fn parse(definition: &Definition) -> (r: Result<Enum, DocError>)
        requires
            definition.wf(),
        ensures
            match r {
                Ok(en) => spec_parse_enum(definition@) == Ok::<EnumV, DocErrorView>(en@),
                Err(e) => spec_parse_enum(definition@) == Err::<EnumV, DocErrorView>(e@),
            },
    {
        if !matches!(definition.defines[0].define_type, DefineType::DocEnum) {
            return Err(DocError::new(ErrorKind::UnexpectedDefineKind, &definition.name));
        }
        let fields: Vec<Field> = Vec::new();
        proof {
            assert(fields.deep_view() =~= Seq::<FieldV>::empty());
        }
        Ok(Self { fields })
    }
}

/// What parsing a table stub yields: an empty table carrying the rendered
/// view of its table-typed extends entry. A definition whose head is not a
/// global assignment, has no extends, or extends something other than a
/// table is refused.
pub open spec fn spec_parse_table(d: json::DefinitionView) -> Result<TableV, DocErrorView> {
    let head = d.defines[0];
    if head.define_type != DefineType::SetGlobal {
        Err(DocErrorView { kind: ErrorKind::UnexpectedDefineKind, name: d.name })
    } else if head.extends.len() == 0 {
        Err(DocErrorView { kind: ErrorKind::MissingExtends, name: d.name })
    } else if head.extends[0].extends_type != ExtendsType::Table {
        Err(DocErrorView { kind: ErrorKind::UnexpectedExtendsType, name: d.name })
    } else {
        Ok(
            TableV {
                view: head.extends[0].view,
                fields: Seq::<FieldV>::empty(),
                functions: Seq::<NamedFunctionV>::empty(),
            },
        )
    }
}

impl Table {
    /// Parse a table stub; see [`spec_parse_table`].
    pub fn parse(definition: &Definition) -> (r: Result<Table, DocError>)
        requires
            definition.wf(),
        ensures
            match r {
                Ok(t) => spec_parse_table(definition@) == Ok::<TableV, DocErrorView>(t@),
                Err(e) => spec_parse_table(definition@) == Err::<TableV, DocErrorView>(e@),
            },
    {
        let head = &definition.defines[0];
        if !matches!(head.define_type, DefineType::SetGlobal) {
            return Err(DocError::new(ErrorKind::UnexpectedDefineKind, &definition.name));
        }
        if head.extends.len() == 0 {
            return Err(DocError::new(ErrorKind::MissingExtends, &definition.name));
        }
        if !matches!(head.extends[0].extends_type, ExtendsType::Table) {
            return Err(DocError::new(ErrorKind::UnexpectedExtendsType, &definition.name));
        }

        let fields: Vec<Field> = Vec::new();
        let functions: Vec<NamedFunction> = Vec::new();
        proof {
            assert(fields.deep_view() =~= Seq::<FieldV>::empty());
            assert(functions.deep_view() =~= Seq::<NamedFunctionV>::empty());
        }
        Ok(Table { view: head.extends[0].view.clone(), fields, functions })
    }
}

/// Whether an extends tag names a primitive value.
pub open spec fn is_primitive_tag(t: ExtendsType) -> bool {
    t == ExtendsType::Binary || t == ExtendsType::Integer || t == ExtendsType::Nil || t
        == ExtendsType::Number || t == ExtendsType::String
}

/// What parsing a global assignment yields: a primitive global for primitive
/// tags, a function global for function tags. A definition whose head is not
/// a global assignment, has no extends, or carries any other tag is refused.
pub open spec fn spec_parse_global(d: json::DefinitionView) -> Result<GlobalV, DocErrorView> {
    let head = d.defines[0];
    if head.define_type != DefineType::SetGlobal {
        Err(DocErrorView { kind: ErrorKind::UnexpectedDefineKind, name: d.name })
    } else if head.extends.len() == 0 {
        Err(DocErrorView { kind: ErrorKind::MissingExtends, name: d.name })
    } else if is_primitive_tag(head.extends[0].extends_type) {
        Ok(GlobalV::Primitive(PrimitiveGlobalV { primitive_type: head.extends[0].view }))
    } else if head.extends[0].extends_type == ExtendsType::Function {
        match spec_parse_function(head.extends[0]) {
            Ok(f) => Ok(GlobalV::Function(f)),
            Err(e) => Err(e),
        }
    } else {
        Err(DocErrorView { kind: ErrorKind::UnexpectedExtendsType, name: d.name })
    }
}

impl Global {
    /// Parse a global assignment; see [`spec_parse_global`].
    pub fn parse(definition: &Definition) -> (r: Result<Global, DocError>)
        requires
            definition.wf(),
        ensures
            match r {
                Ok(g) => spec_parse_global(definition@) == Ok::<GlobalV, DocErrorView>(g@),
                Err(e) => spec_parse_global(definition@) == Err::<GlobalV, DocErrorView>(e@),
            },
    {
        let head = &definition.defines[0];
        if !matches!(head.define_type, DefineType::SetGlobal) {
            return Err(DocError::new(ErrorKind::UnexpectedDefineKind, &definition.name));
        }
        if head.extends.len() == 0 {
            return Err(DocError::new(ErrorKind::MissingExtends, &definition.name));
        }
        let extends = &head.extends[0];
        match extends.extends_type {
            ExtendsType::Binary | ExtendsType::Integer | ExtendsType::Nil | ExtendsType::Number
                | ExtendsType::String => Ok(
                Global::Primitive(PrimitiveGlobal { primitive_type: extends.view.clone() }),
            ),
            ExtendsType::Function => {
                match Function::parse(extends) {
                    Ok(f) => Ok(Global::Function(f)),
                    Err(e) => Err(e),
                }
            },
            _ => Err(DocError::new(ErrorKind::UnexpectedExtendsType, &definition.name)),
        }
    }
}

/// The name a field is keyed by.
pub open spec fn field_key() -> spec_fn(FieldV) -> Seq<char> {
    |f: FieldV| f.name
}

/// The name a named function is keyed by.
pub open spec fn named_function_key() -> spec_fn(NamedFunctionV) -> Seq<char> {
    |f: NamedFunctionV| f.name
}

impl Table {
    /// Write a field under its name, replacing any field of the same name.
    pub fn add_field(&mut self, field: Field)
        ensures
            final(self)@.view == old(self)@.view,
            final(self)@.functions == old(self)@.functions,
            final(self)@.fields == keyed::upsert_by(old(self)@.fields, field_key(), field@),
    {
        upsert_field(&mut self.fields, field);
    }

    /// Write a function under its name, replacing any function of the same
    /// name.
    pub fn add_function(&mut self, function: NamedFunction)
        ensures
            final(self)@.view == old(self)@.view,
            final(self)@.fields == old(self)@.fields,
            final(self)@.functions == keyed::upsert_by(
                old(self)@.functions,
                named_function_key(),
                function@,
            ),
    {
        upsert_function(&mut self.functions, function);
    }
}

impl Enum {
    /// Write a field under its name, replacing any field of the same name.
    pub fn add_field(&mut self, field: Field)
        ensures
            final(self)@.fields == keyed::upsert_by(old(self)@.fields, field_key(), field@),
    {
        upsert_field(&mut self.fields, field);
    }
}

/// Write `field` into `fields` under its name, replacing the first field of
/// the same name or appending.
fn upsert_field(fields: &mut Vec<Field>, field: Field)
    ensures
        final(fields).deep_view() == keyed::upsert_by(
            old(fields).deep_view(),
            field_key(),
            field@,
        ),
{
    let ghost orig = fields.deep_view();
    let mut i: usize = 0;
    while i < fields.len()
        invariant
            orig == old(fields).deep_view(),
            fields.deep_view() == orig,
            i <= orig.len(),
            forall|k: int| 0 <= k < i ==> field_key()(orig[k]) != field@.name,
        decreases fields.len() - i,
    {
        if strutil::str_eq(fields[i].name.as_str(), field.name.as_str()) {
            proof {
                assert(field_key()(orig[i as int]) == orig[i as int].name);
                assert(field_key()(field@) == field@.name);
                keyed::lemma_index_by_at(orig, field_key(), field@.name, i as int);
            }
            fields.remove(i);
            fields.insert(i, field);
            proof {
                assert(fields.deep_view() =~= orig.update(i as int, field@));
            }
            return ;
        }
        proof {
            assert(field_key()(orig[i as int]) == orig[i as int].name);
        }
        i += 1;
    }
    proof {
        assert(field_key()(field@) == field@.name);
        keyed::lemma_index_by_none(orig, field_key(), field@.name);
    }
    fields.push(field);
    proof {
        assert(fields.deep_view() =~= orig.push(field@));
    }
}

/// Write `function` into `functions` under its name, replacing the first
/// function of the same name or appending.
fn upsert_function(functions: &mut Vec<NamedFunction>, function: NamedFunction)
    ensures
        final(functions).deep_view() == keyed::upsert_by(
            old(functions).deep_view(),
            named_function_key(),
            function@,
        ),
{
    let ghost orig = functions.deep_view();
    let mut i: usize = 0;
    while i < functions.len()
        invariant
            orig == old(functions).deep_view(),
            functions.deep_view() == orig,
            i <= orig.len(),
            forall|k: int| 0 <= k < i ==> named_function_key()(orig[k]) != function@.name,
        decreases functions.len() - i,
    {
        if strutil::str_eq(functions[i].name.as_str(), function.name.as_str()) {
            proof {
                assert(named_function_key()(orig[i as int]) == orig[i as int].name);
                assert(named_function_key()(function@) == function@.name);
                keyed::lemma_index_by_at(orig, named_function_key(), function@.name, i as int);
            }
            functions.remove(i);
            functions.insert(i, function);
            proof {
                assert(functions.deep_view() =~= orig.update(i as int, function@));
            }
            return ;
        }
        proof {
            assert(named_function_key()(orig[i as int]) == orig[i as int].name);
        }
        i += 1;
    }
    proof {
        assert(named_function_key()(function@) == function@.name);
        keyed::lemma_index_by_none(orig, named_function_key(), function@.name);
    }
    functions.push(function);
    proof {
        assert(functions.deep_view() =~= orig.push(function@));
    }
}

/// Whether a field entry contributes a plain class field: a doc-field or
/// set-field entry that is not function-typed.
pub open spec fn class_field_pred(f: json::FieldView) -> bool {
    (f.field_type == FieldType::DocField || f.field_type == FieldType::SetField)
        && f.extends.extends_type != ExtendsType::Function
}

/// Whether a field entry contributes a class method through a set-field
/// assignment of a function.
pub open spec fn class_function_pred(f: json::FieldView) -> bool {
    f.field_type == FieldType::SetField && f.extends.extends_type == ExtendsType::Function
}

/// The plain fields a class collects from its field entries, in source order.
pub open spec fn spec_class_fields(fields: Seq<json::FieldView>) -> Seq<FieldV>
    decreases fields.len(),
{
    if fields.len() == 0 {
        Seq::<FieldV>::empty()
    } else {
        let rest = spec_class_fields(fields.drop_last());
        let f = fields.last();
        if class_field_pred(f) {
            rest.push(FieldV { name: f.name, description: f.rawdesc, lua_type: f.extends.view })
        } else {
            rest
        }
    }
}

/// The methods a class collects from function-typed set-field entries, in
/// source order.
pub open spec fn spec_class_functions(fields: Seq<json::FieldView>) -> Seq<NamedFunctionV>
    decreases fields.len(),
{
    if fields.len() == 0 {
        Seq::<NamedFunctionV>::empty()
    } else {
        let rest = spec_class_functions(fields.drop_last());
        let f = fields.last();
        if class_function_pred(f) {
            match spec_parse_function(f.extends) {
                Ok(func) => rest.push(NamedFunctionV { name: f.name, function: func }),
                Err(_) => rest,
            }
        } else {
            rest
        }
    }
}

/// The methods a class collects from set-method entries, in source order;
/// the first entry whose body is not function-typed is a fatal error.
pub open spec fn spec_class_set_methods(fields: Seq<json::FieldView>) -> Result<
    Seq<NamedFunctionV>,
    DocErrorView,
> {
    spec_class_set_methods_rec(fields)
}

pub open spec fn spec_class_set_methods_rec(fields: Seq<json::FieldView>) -> Result<
    Seq<NamedFunctionV>,
    DocErrorView,
>
    decreases fields.len(),
{
    if fields.len() == 0 {
        Ok(Seq::<NamedFunctionV>::empty())
    } else {
        match spec_class_set_methods_rec(fields.drop_last()) {
            Err(e) => Err(e),
            Ok(rest) => {
                let f = fields.last();
                if f.field_type == FieldType::SetMethod {
                    match spec_parse_named_function(f) {
                        Ok(nf) => Ok(rest.push(nf)),
                        Err(e) => Err(e),
                    }
                } else {
                    Ok(rest)
                }
            },
        }
    }
}

/// An error among the first `i` field entries decides the whole fold.
proof fn lemma_set_methods_err_persists(fields: Seq<json::FieldView>, i: int)
    requires
        0 <= i <= fields.len(),
        spec_class_set_methods_rec(fields.take(i)) is Err,
    ensures
        spec_class_set_methods_rec(fields) == spec_class_set_methods_rec(fields.take(i)),
    decreases fields.len() - i,
{
    if i < fields.len() {
        assert(fields.take(i + 1).drop_last() =~= fields.take(i));
        lemma_set_methods_err_persists(fields, i + 1);
    } else {
        assert(fields.take(i) =~= fields);
    }
}

/// Two method lists merged into one, ordered by name in code-point order;
/// on equal names the first list's entry comes first.
pub open spec fn merge_by_name(a: Seq<NamedFunctionV>, b: Seq<NamedFunctionV>) -> Seq<
    NamedFunctionV,
>
    decreases a.len() + b.len(),
{
    if a.len() == 0 {
        b
    } else if b.len() == 0 {
        a
    } else if strutil::seq_char_le(a[0].name, b[0].name) {
        seq![a[0]] + merge_by_name(a.drop_first(), b)
    } else {
        seq![b[0]] + merge_by_name(a, b.drop_first())
    }
}

/// Merge two method lists by name; see [`merge_by_name`].
fn merge_named_functions(a: Vec<NamedFunction>, b: Vec<NamedFunction>) -> (r: Vec<NamedFunction>)
    ensures
        r.deep_view() == merge_by_name(a.deep_view(), b.deep_view()),
{
    let ghost av = a.deep_view();
    let ghost bv = b.deep_view();
    let mut a = a;
    let mut b = b;
    let mut out: Vec<NamedFunction> = Vec::new();
    proof {
        assert(out.deep_view() + merge_by_name(a.deep_view(), b.deep_view()) =~= merge_by_name(
            av,
            bv,
        ));
    }
    while a.len() > 0 && b.len() > 0
        invariant
            out.deep_view() + merge_by_name(a.deep_view(), b.deep_view()) == merge_by_name(av, bv),
        decreases a.len() + b.len(),
    {
        let ghost out0 = out.deep_view();
        let ghost a0 = a.deep_view();
        let ghost b0 = b.deep_view();
        if strutil::str_le(a[0].name.as_str(), b[0].name.as_str()) {
            let x = a.remove(0);
            out.push(x);
            proof {
                assert(a.deep_view() =~= a0.drop_first());
                assert(out.deep_view() =~= out0.push(a0[0]));
                assert(merge_by_name(a0, b0) == seq![a0[0]] + merge_by_name(a0.drop_first(), b0));
                assert(out.deep_view() + merge_by_name(a.deep_view(), b.deep_view())
                    =~= out0 + merge_by_name(a0, b0));
            }
        } else {
            let x = b.remove(0);
            out.push(x);
            proof {
                assert(b.deep_view() =~= b0.drop_first());
                assert(out.deep_view() =~= out0.push(b0[0]));
                assert(merge_by_name(a0, b0) == seq![b0[0]] + merge_by_name(a0, b0.drop_first()));
                assert(out.deep_view() + merge_by_name(a.deep_view(), b.deep_view())
                    =~= out0 + merge_by_name(a0, b0));
            }
        }
    }
    while a.len() > 0
        invariant
            out.deep_view() + merge_by_name(a.deep_view(), b.deep_view()) == merge_by_name(av, bv),
            a.len() == 0 || b.len() == 0,
        decreases a.len(),
    {
        let ghost out0 = out.deep_view();
        let ghost a0 = a.deep_view();
        let x = a.remove(0);
        out.push(x);
        proof {
            assert(a.deep_view() =~= a0.drop_first());
            assert(out.deep_view() =~= out0.push(a0[0]));
            assert(merge_by_name(a0, b.deep_view()) == a0);
            assert(merge_by_name(a.deep_view(), b.deep_view()) == a.deep_view());
            assert(out.deep_view() + merge_by_name(a.deep_view(), b.deep_view()) =~= out0 + a0);
        }
    }
    while b.len() > 0
        invariant
            out.deep_view() + merge_by_name(a.deep_view(), b.deep_view()) == merge_by_name(av, bv),
            a.len() == 0,
        decreases b.len(),
    {
        let ghost out0 = out.deep_view();
        let ghost b0 = b.deep_view();
        let x = b.remove(0);
        out.push(x);
        proof {
            assert(b.deep_view() =~= b0.drop_first());
            assert(out.deep_view() =~= out0.push(b0[0]));
            assert(merge_by_name(a.deep_view(), b0) == b0);
            assert(merge_by_name(a.deep_view(), b.deep_view()) == b.deep_view());
            assert(out.deep_view() + merge_by_name(a.deep_view(), b.deep_view()) =~= out0 + b0);
        }
    }
    proof {
        assert(merge_by_name(a.deep_view(), b.deep_view()).len() == 0);
        assert(out.deep_view() =~= out.deep_view() + merge_by_name(a.deep_view(), b.deep_view()));
    }
    out
}

/// What parsing a class yields: its plain fields, and its methods from both
/// function-typed set-field entries and set-method entries, merged by name.
/// A variable-flavored definition or a head that is not a doc-class is
/// refused, as is any set-method entry without a function body.
pub open spec fn spec_parse_class(d: json::DefinitionView) -> Result<ClassV, DocErrorView> {
    if d.definition_type != DefinitionType::Type {
        Err(DocErrorView { kind: ErrorKind::NotATypeDefinition, name: d.name })
    } else if d.defines[0].define_type != DefineType::DocClass {
        Err(DocErrorView { kind: ErrorKind::UnexpectedDefineKind, name: d.name })
    } else {
        match spec_class_set_methods(d.fields) {
            Err(e) => Err(e),
            Ok(methods) => Ok(
                ClassV {
                    fields: spec_class_fields(d.fields),
                    methods: merge_by_name(spec_class_functions(d.fields), methods),
                },
            ),
        }
    }
}

impl Class {
    /// Parse a class declaration; see [`spec_parse_class`].
    pub fn parse(definition: &Definition) -> (r: Result<Class, DocError>)
        requires
            definition.wf(),
        ensures
            match r {
                Ok(c) => spec_parse_class(definition@) == Ok::<ClassV, DocErrorView>(c@),
                Err(e) => spec_parse_class(definition@) == Err::<ClassV, DocErrorView>(e@),
            },
    {
        if !matches!(definition.definition_type, DefinitionType::Type) {
            return Err(DocError::new(ErrorKind::NotATypeDefinition, &definition.name));
        }
        if !matches!(definition.defines[0].define_type, DefineType::DocClass) {
            return Err(DocError::new(ErrorKind::UnexpectedDefineKind, &definition.name));
        }

        let ghost fv = definition.fields.deep_view();

        let mut fields: Vec<Field> = Vec::new();
        let mut i: usize = 0;
        proof {
            assert(fields.deep_view() =~= spec_class_fields(fv.take(0)));
        }
        while i < definition.fields.len()
            invariant
                definition.wf(),
                fv == definition.fields.deep_view(),
                i <= definition.fields.len(),
                fields.deep_view() == spec_class_fields(fv.take(i as int)),
            decreases definition.fields.len() - i,
        {
            let ghost pre = fields.deep_view();
            let f = &definition.fields[i];
            let is_field = matches!(f.field_type, FieldType::DocField) || matches!(
                f.field_type,
                FieldType::SetField,
            );
            if is_field && !matches!(f.extends.extends_type, ExtendsType::Function) {
                let parsed = match Field::parse(f) {
                    Ok(p) => p,
                    Err(_) => unreached(),
                };
                fields.push(parsed);
                proof {
                    assert(fields.deep_view() =~= pre.push(parsed@));
                }
            }
            proof {
                assert(fv.take(i + 1).drop_last() =~= fv.take(i as int));
                assert(fv.take(i + 1).last() == fv[i as int]);
            }
            i += 1;
        }
        proof {
            assert(fv.take(fv.len() as int) =~= fv);
        }

        let mut functions: Vec<NamedFunction> = Vec::new();
        let mut j: usize = 0;
        proof {
            assert(functions.deep_view() =~= spec_class_functions(fv.take(0)));
        }
        while j < definition.fields.len()
            invariant
                definition.wf(),
                fv == definition.fields.deep_view(),
                j <= definition.fields.len(),
                functions.deep_view() == spec_class_functions(fv.take(j as int)),
            decreases definition.fields.len() - j,
        {
            let ghost pre = functions.deep_view();
            let f = &definition.fields[j];
            if matches!(f.field_type, FieldType::SetField) && matches!(
                f.extends.extends_type,
                ExtendsType::Function,
            ) {
                let func = match Function::parse(&f.extends) {
                    Ok(p) => p,
                    Err(_) => unreached(),
                };
                let nf = NamedFunction { name: f.name.clone(), function: func };
                functions.push(nf);
                proof {
                    assert(functions.deep_view() =~= pre.push(
                        NamedFunctionV { name: f@.name, function: func@ },
                    ));
                }
            }
            proof {
                assert(fv.take(j + 1).drop_last() =~= fv.take(j as int));
                assert(fv.take(j + 1).last() == fv[j as int]);
            }
            j += 1;
        }
        proof {
            assert(fv.take(fv.len() as int) =~= fv);
        }

        let mut methods: Vec<NamedFunction> = Vec::new();
        let mut k: usize = 0;
        proof {
            assert(spec_class_set_methods_rec(fv.take(0)) == Ok::<
                Seq<NamedFunctionV>,
                DocErrorView,
            >(Seq::<NamedFunctionV>::empty()));
            assert(methods.deep_view() =~= Seq::<NamedFunctionV>::empty());
        }
        while k < definition.fields.len()
            invariant
                definition.wf(),
                definition@.definition_type == DefinitionType::Type,
                definition@.defines[0].define_type == DefineType::DocClass,
                fv == definition.fields.deep_view(),
                k <= definition.fields.len(),
                spec_class_set_methods_rec(fv.take(k as int)) == Ok::<
                    Seq<NamedFunctionV>,
                    DocErrorView,
                >(methods.deep_view()),
            decreases definition.fields.len() - k,
        {
            let ghost pre = methods.deep_view();
            let f = &definition.fields[k];
            proof {
                assert(fv.take(k + 1).drop_last() =~= fv.take(k as int));
                assert(fv.take(k + 1).last() == fv[k as int]);
            }
            if matches!(f.field_type, FieldType::SetMethod) {
                let nf = match NamedFunction::parse(f) {
                    Ok(p) => p,
                    Err(e) => {
                        proof {
                            assert(spec_class_set_methods_rec(fv.take(k + 1)) == Err::<
                                Seq<NamedFunctionV>,
                                DocErrorView,
                            >(e@));
                            lemma_set_methods_err_persists(fv, k + 1);
                        }
                        return Err(e);
                    },
                };
                methods.push(nf);
                proof {
                    assert(methods.deep_view() =~= pre.push(nf@));
                }
            }
            k += 1;
        }
        proof {
            assert(fv.take(fv.len() as int) =~= fv);
        }

        let merged = merge_named_functions(functions, methods);

        Ok(Self { fields, methods: merged })
    }
}

/// What parsing one record into a documentation item yields. Doc constructs
/// become classes, enums and type aliases. A global assignment becomes a
/// table stub, a primitive global or a function global, and may not directly
/// declare a doc-only type. Attachment kinds yield nothing here.
pub open spec fn spec_parse_doc_item(d: json::DefinitionView) -> Result<
    Option<DocItemV>,
    DocErrorView,
> {
    let head = d.defines[0];
    let inner = match head.define_type {
        DefineType::DocAlias => match spec_parse_type_alias(d) {
            Ok(a) => Ok(Some(DocItemEnumV::TypeAlias(a))),
            Err(e) => Err(e),
        },
        DefineType::DocClass => match spec_parse_class(d) {
            Ok(c) => Ok(Some(DocItemEnumV::Class(c))),
            Err(e) => Err(e),
        },
        DefineType::DocEnum => match spec_parse_enum(d) {
            Ok(en) => Ok(Some(DocItemEnumV::Enum(en))),
            Err(e) => Err(e),
        },
        DefineType::SetGlobal => {
            if head.extends.len() == 0 {
                Err(DocErrorView { kind: ErrorKind::MissingExtends, name: d.name })
            } else if head.extends[0].extends_type == ExtendsType::DocType || head.extends[0]
                .extends_type == ExtendsType::DocExtendsName {
                Err(DocErrorView { kind: ErrorKind::UnexpectedDocExtends, name: d.name })
            } else if head.extends[0].extends_type == ExtendsType::Table {
                match spec_parse_table(d) {
                    Ok(t) => Ok(Some(DocItemEnumV::Table(t))),
                    Err(e) => Err(e),
                }
            } else {
                match spec_parse_global(d) {
                    Ok(g) => Ok(Some(DocItemEnumV::Global(g))),
                    Err(e) => Err(e),
                }
            }
        },
        _ => Ok(None),
    };
    match inner {
        Err(e) => Err(e),
        Ok(None) => Ok(None),
        Ok(Some(body)) => Ok(
            Some(
                DocItemV {
                    name: d.name,
                    description: d.rawdesc,
                    range: head.location.range,
                    inner: body,
                },
            ),
        ),
    }
}

/// A class declaration with a single set-method field entry yields exactly
/// one method, carrying that entry's name and its argument and return lists
/// in their original order.
pub proof fn lemma_class_single_set_method(d: json::DefinitionView)
    requires
        d.definition_type == DefinitionType::Type,
        d.defines.len() >= 1,
        d.defines[0].define_type == DefineType::DocClass,
        d.fields.len() == 1,
        d.fields[0].field_type == FieldType::SetMethod,
        d.fields[0].extends.extends_type == ExtendsType::Function,
    ensures
        spec_parse_class(d) matches Ok(c) && {
            let f = d.fields[0];
            &&& c.fields == Seq::<FieldV>::empty()
            &&& c.methods.len() == 1
            &&& c.methods[0].name == f.name
            &&& c.methods[0].function.arguments.len() == f.extends.args.len()
            &&& forall|i: int|
                0 <= i < f.extends.args.len() ==> c.methods[0].function.arguments[i]
                    == spec_parse_argument(#[trigger] f.extends.args[i])
            &&& c.methods[0].function.returns.len() == f.extends.returns.len()
            &&& forall|i: int|
                0 <= i < f.extends.returns.len() ==> c.methods[0].function.returns[i]
                    == spec_parse_return(#[trigger] f.extends.returns[i])
        },
{
    let f = d.fields[0];
    reveal_with_fuel(spec_class_fields, 2);
    reveal_with_fuel(spec_class_functions, 2);
    reveal_with_fuel(spec_class_set_methods_rec, 2);
    assert(d.fields.drop_last() =~= Seq::<json::FieldView>::empty());
    assert(d.fields.last() == f);
    let fr = spec_parse_function(f.extends);
    assert(fr is Ok);
    let nf = NamedFunctionV { name: f.name, function: fr->Ok_0 };
    assert(spec_class_set_methods(d.fields) == Ok::<Seq<NamedFunctionV>, DocErrorView>(
        Seq::<NamedFunctionV>::empty().push(nf),
    ));
    assert(spec_class_functions(d.fields) =~= Seq::<NamedFunctionV>::empty());
    assert(spec_class_fields(d.fields) =~= Seq::<FieldV>::empty());
    assert(merge_by_name(Seq::<NamedFunctionV>::empty(), seq![nf]) == seq![nf]);
}

/// A global assignment of a function parses to a function global whose
/// display view is the input view with any leading method marker stripped,
/// and whose arguments and returns keep their original order.
pub proof fn lemma_global_function_view(d: json::DefinitionView)
    requires
        d.defines.len() >= 1,
        d.defines[0].define_type == DefineType::SetGlobal,
        d.defines[0].extends.len() >= 1,
        d.defines[0].extends[0].extends_type == ExtendsType::Function,
    ensures
        spec_parse_global(d) matches Ok(g) && g matches GlobalV::Function(func) && {
            let ext = d.defines[0].extends[0];
            &&& func.view == spec_strip_method_prefix(ext.view)
            &&& func.description == ext.rawdesc
            &&& func.arguments == ext.args.map_values(
                |a: json::FuncArgView| spec_parse_argument(a),
            )
            &&& func.returns == ext.returns.map_values(
                |r: json::FuncReturnView| spec_parse_return(r),
            )
        },
{
}

impl DocItem {
    /// Parse one record into a documentation item, when its head define
    /// carries a primary kind; see [`spec_parse_doc_item`].
    pub fn parse(definition: &Definition) -> (r: Result<Option<DocItem>, DocError>)
        requires
            definition.wf(),
        ensures
            match r {
                Ok(item) => spec_parse_doc_item(definition@) == Ok::<
                    Option<DocItemV>,
                    DocErrorView,
                >(item.deep_view()),
                Err(e) => spec_parse_doc_item(definition@) == Err::<
                    Option<DocItemV>,
                    DocErrorView,
                >(e@),
            },
    {
        let head = &definition.defines[0];
        let inner: Option<DocItemEnum> = match head.define_type {
            DefineType::DocAlias => match TypeAlias::parse(definition) {
                Ok(a) => Some(DocItemEnum::TypeAlias(a)),
                Err(e) => {
                    return Err(e);
                },
            },
            DefineType::DocClass => match Class::parse(definition) {
                Ok(c) => Some(DocItemEnum::Class(c)),
                Err(e) => {
                    return Err(e);
                },
            },
            DefineType::DocEnum => match Enum::parse(definition) {
                Ok(en) => Some(DocItemEnum::Enum(en)),
                Err(e) => {
                    return Err(e);
                },
            },
            DefineType::SetGlobal => {
                if head.extends.len() == 0 {
                    return Err(DocError::new(ErrorKind::MissingExtends, &definition.name));
                }
                match head.extends[0].extends_type {
                    ExtendsType::DocType | ExtendsType::DocExtendsName => {
                        return Err(DocError::new(ErrorKind::UnexpectedDocExtends, &definition.name));
                    },
                    ExtendsType::Table => match Table::parse(definition) {
                        Ok(t) => Some(DocItemEnum::Table(t)),
                        Err(e) => {
                            return Err(e);
                        },
                    },
                    _ => match Global::parse(definition) {
                        Ok(g) => Some(DocItemEnum::Global(g)),
                        Err(e) => {
                            return Err(e);
                        },
                    },
                }
            },
            _ => None,
        };

        match inner {
            None => Ok(None),
            Some(body) => Ok(
                Some(
                    DocItem {
                        name: definition.name.clone(),
                        description: strutil::clone_opt_string(&definition.rawdesc),
                        range: head.location.range,
                        inner: body,
                    },
                ),
            ),
        }
    }
}

} // verus!
