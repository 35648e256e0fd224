//! The typed shape of one input record of the Lua documentation export: a
//! named symbol with one-or-more defines, each carrying a discriminated kind
//! and what it assigns, plus field entries for type-like symbols.

use crate::location::{Location, LocationView, Range};
use crate::strutil;
use vstd::prelude::*;

verus! {

/// Whether a definition names a type or a variable.
#[derive(Clone, Copy, Debug, PartialEq, Eq, Structural)]
pub enum DefinitionType {
    Type,
    Variable,
}

/// The discriminated kind of one define.
#[derive(Clone, Copy, Debug, PartialEq, Eq, Structural)]
pub enum DefineType {
    DocAlias,
    DocClass,
    DocEnum,
    DocField,
    TableField,
    SetGlobal,
    SetField,
    SetMethod,
    SetIndex,
}

/// What an extends entry assigns.
#[derive(Clone, Copy, Debug, PartialEq, Eq, Structural)]
pub enum ExtendsType {
    Binary,
    DocExtendsName,
    DocType,
    Function,
    Integer,
    Nil,
    Number,
    String,
    Table,
}

/// The kind of a field entry inside a type-like definition.
#[derive(Clone, Copy, Debug, PartialEq, Eq, Structural)]
pub enum FieldType {
    DocField,
    SetMethod,
    SetField,
}

/// Declared visibility of a field.
#[derive(Clone, Copy, Debug, PartialEq, Eq, Structural)]
pub enum Visibility {
    Public,
    Protected,
    Private,
    Package,
}

/// The kind of one function argument.
#[derive(Clone, Copy, Debug, PartialEq, Eq, Structural)]
pub enum ArgType {
    DocType,
    Local,
    SelfType,
    VarArg,
}

/// One argument of a function-typed extends entry.
#[derive(Debug, Clone, PartialEq)]
pub struct FuncArg {
    /// The name is missing for varargs.
    pub name: Option<String>,
    pub arg_type: ArgType,
    pub desc: Option<String>,
    pub rawdesc: Option<String>,
    pub view: String,
    pub range: Range,
}

/// Mathematical model of a `FuncArg`.
pub ghost struct FuncArgView {
    pub name: Option<Seq<char>>,
    pub arg_type: ArgType,
    pub desc: Option<Seq<char>>,
    pub rawdesc: Option<Seq<char>>,
    pub view: Seq<char>,
    pub range: Range,
}

impl View for FuncArg {
    type V = FuncArgView;

    open spec fn view(&self) -> FuncArgView {
        FuncArgView {
            name: self.name.deep_view(),
            arg_type: self.arg_type,
            desc: self.desc.deep_view(),
            rawdesc: self.rawdesc.deep_view(),
            view: self.view@,
            range: self.range,
        }
    }
}

impl DeepView for FuncArg {
    type V = FuncArgView;

    open spec fn deep_view(&self) -> FuncArgView {
        self.view()
    }
}

/// One return value of a function-typed extends entry.
#[derive(Debug, Clone, PartialEq)]
pub struct FuncReturn {
    pub name: Option<String>,
    pub view: String,
    pub desc: Option<String>,
    pub rawdesc: Option<String>,
}

/// Mathematical model of a `FuncReturn`.
pub ghost struct FuncReturnView {
    pub name: Option<Seq<char>>,
    pub view: Seq<char>,
    pub desc: Option<Seq<char>>,
    pub rawdesc: Option<Seq<char>>,
}

impl View for FuncReturn {
    type V = FuncReturnView;

    open spec fn view(&self) -> FuncReturnView {
        FuncReturnView {
            name: self.name.deep_view(),
            view: self.view@,
            desc: self.desc.deep_view(),
            rawdesc: self.rawdesc.deep_view(),
        }
    }
}

impl DeepView for FuncReturn {
    type V = FuncReturnView;

    open spec fn deep_view(&self) -> FuncReturnView {
        self.view()
    }
}

/// What a define assigns: a type tag, a rendered type view, and, for
/// functions only, the arguments and returns.
#[derive(Debug, Clone, PartialEq)]
pub struct Extends {
    pub range: Range,
    pub extends_type: ExtendsType,
    pub view: String,
    pub desc: Option<String>,
    pub rawdesc: Option<String>,
    pub is_async: Option<bool>,
    pub deprecated: Option<bool>,
    /// Only present for function-typed entries with arguments.
    pub args: Vec<FuncArg>,
    /// Only present for function-typed entries with returns.
    pub returns: Vec<FuncReturn>,
}

/// Mathematical model of an `Extends`.
pub ghost struct ExtendsView {
    pub range: Range,
    pub extends_type: ExtendsType,
    pub view: Seq<char>,
    pub desc: Option<Seq<char>>,
    pub rawdesc: Option<Seq<char>>,
    pub is_async: Option<bool>,
    pub deprecated: Option<bool>,
    pub args: Seq<FuncArgView>,
    pub returns: Seq<FuncReturnView>,
}

impl View for Extends {
    type V = ExtendsView;

    open spec fn view(&self) -> ExtendsView {
        ExtendsView {
            range: self.range,
            extends_type: self.extends_type,
            view: self.view@,
            desc: self.desc.deep_view(),
            rawdesc: self.rawdesc.deep_view(),
            is_async: self.is_async,
            deprecated: self.deprecated,
            args: self.args.deep_view(),
            returns: self.returns.deep_view(),
        }
    }
}

impl DeepView for Extends {
    type V = ExtendsView;

    open spec fn deep_view(&self) -> ExtendsView {
        self.view()
    }
}

/// One field entry inside a type-like definition.
#[derive(Debug, Clone, PartialEq)]
pub struct Field {
    pub name: String,
    pub desc: Option<String>,
    pub rawdesc: Option<String>,
    pub location: Location,
    pub field_type: FieldType,
    pub visible: Option<Visibility>,
    pub is_async: Option<bool>,
    pub deprecated: Option<bool>,
    pub extends: Extends,
}

/// Mathematical model of a `Field`.
pub ghost struct FieldView {
    pub name: Seq<char>,
    pub desc: Option<Seq<char>>,
    pub rawdesc: Option<Seq<char>>,
    pub location: LocationView,
    pub field_type: FieldType,
    pub visible: Option<Visibility>,
    pub is_async: Option<bool>,
    pub deprecated: Option<bool>,
    pub extends: ExtendsView,
}

impl View for Field {
    type V = FieldView;

    open spec fn view(&self) -> FieldView {
        FieldView {
            name: self.name@,
            desc: self.desc.deep_view(),
            rawdesc: self.rawdesc.deep_view(),
            location: self.location@,
            field_type: self.field_type,
            visible: self.visible,
            is_async: self.is_async,
            deprecated: self.deprecated,
            extends: self.extends@,
        }
    }
}

impl DeepView for Field {
    type V = FieldView;

    open spec fn deep_view(&self) -> FieldView {
        self.view()
    }
}

/// One define of a symbol: its kind, where it stands, and what it assigns.
#[derive(Debug, Clone, PartialEq)]
pub struct Define {
    pub define_type: DefineType,
    pub location: Location,
    pub extends: Vec<Extends>,
}

/// Mathematical model of a `Define`.
pub ghost struct DefineView {
    pub define_type: DefineType,
    pub location: LocationView,
    pub extends: Seq<ExtendsView>,
}

impl View for Define {
    type V = DefineView;

    open spec fn view(&self) -> DefineView {
        DefineView {
            define_type: self.define_type,
            location: self.location@,
            extends: self.extends.deep_view(),
        }
    }
}

impl DeepView for Define {
    type V = DefineView;

    open spec fn deep_view(&self) -> DefineView {
        self.view()
    }
}

/// One input record: a named symbol with an ordered, non-empty list of
/// defines and, for type-like symbols, a list of field entries.
#[derive(Debug, Clone, PartialEq)]
pub struct Definition {
    pub name: String,
    pub desc: Option<String>,
    pub definition_type: DefinitionType,
    pub rawdesc: Option<String>,
    /// Never empty: see [`Definition::wf`]. The first entry (the head
    /// define) drives top-level kind classification.
    pub defines: Vec<Define>,
    pub fields: Vec<Field>,
}

/// Mathematical model of a `Definition`.
pub ghost struct DefinitionView {
    pub name: Seq<char>,
    pub desc: Option<Seq<char>>,
    pub definition_type: DefinitionType,
    pub rawdesc: Option<Seq<char>>,
    pub defines: Seq<DefineView>,
    pub fields: Seq<FieldView>,
}

impl View for Definition {
    type V = DefinitionView;

    open spec fn view(&self) -> DefinitionView {
        DefinitionView {
            name: self.name@,
            desc: self.desc.deep_view(),
            definition_type: self.definition_type,
            rawdesc: self.rawdesc.deep_view(),
            defines: self.defines.deep_view(),
            fields: self.fields.deep_view(),
        }
    }
}

impl DeepView for Definition {
    type V = DefinitionView;

    open spec fn deep_view(&self) -> DefinitionView {
        self.view()
    }
}

impl Definition {
    /// A definition always carries at least one define; its head drives the
    /// top-level kind.
    pub open spec fn wf(&self) -> bool {
        self.defines.len() >= 1
    }

    /// The head define of this definition's model.
    pub open spec fn head(&self) -> DefineView {
        self@.defines[0]
    }
}

impl FuncArg {
    /// A field-level copy.
    pub fn duplicate(&self) -> (r: FuncArg)
        ensures
            r@ == self@,
    {
        FuncArg {
            name: strutil::clone_opt_string(&self.name),
            arg_type: self.arg_type,
            desc: strutil::clone_opt_string(&self.desc),
            rawdesc: strutil::clone_opt_string(&self.rawdesc),
            view: self.view.clone(),
            range: self.range,
        }
    }
}

impl FuncReturn {
    /// A field-level copy.
    pub fn duplicate(&self) -> (r: FuncReturn)
        ensures
            r@ == self@,
    {
        FuncReturn {
            name: strutil::clone_opt_string(&self.name),
            view: self.view.clone(),
            desc: strutil::clone_opt_string(&self.desc),
            rawdesc: strutil::clone_opt_string(&self.rawdesc),
        }
    }
}

impl Extends {
    /// A field-level copy.
    pub fn duplicate(&self) -> (r: Extends)
        ensures
            r@ == self@,
    {
        let mut args: Vec<FuncArg> = Vec::new();
        let mut i: usize = 0;
        while i < self.args.len()
            invariant
                i <= self.args.len(),
                args.len() == i,
                forall|k: int| 0 <= k < i ==> (#[trigger] args@[k])@ == self.args@[k]@,
            decreases self.args.len() - i,
        {
            args.push(self.args[i].duplicate());
            i += 1;
        }
        proof {
            assert forall|k: int| 0 <= k < args.deep_view().len() implies args.deep_view()[k]
                == self.args.deep_view()[k] by {
                assert(args@[k]@ == self.args@[k]@);
            }
            assert(args.deep_view() =~= self.args.deep_view());
        }
        let mut rets: Vec<FuncReturn> = Vec::new();
        let mut j: usize = 0;
        while j < self.returns.len()
            invariant
                j <= self.returns.len(),
                rets.len() == j,
                forall|k: int| 0 <= k < j ==> (#[trigger] rets@[k])@ == self.returns@[k]@,
            decreases self.returns.len() - j,
        {
            rets.push(self.returns[j].duplicate());
            j += 1;
        }
        proof {
            assert forall|k: int| 0 <= k < rets.deep_view().len() implies rets.deep_view()[k]
                == self.returns.deep_view()[k] by {
                assert(rets@[k]@ == self.returns@[k]@);
            }
            assert(rets.deep_view() =~= self.returns.deep_view());
        }
        Extends {
            range: self.range,
            extends_type: self.extends_type,
            view: self.view.clone(),
            desc: strutil::clone_opt_string(&self.desc),
            rawdesc: strutil::clone_opt_string(&self.rawdesc),
            is_async: self.is_async,
            deprecated: self.deprecated,
            args,
            returns: rets,
        }
    }
}

impl Field {
    /// A field-level copy.
    pub fn duplicate(&self) -> (r: Field)
        ensures
            r@ == self@,
    {
        Field {
            name: self.name.clone(),
            desc: strutil::clone_opt_string(&self.desc),
            rawdesc: strutil::clone_opt_string(&self.rawdesc),
            location: self.location.duplicate(),
            field_type: self.field_type,
            visible: self.visible,
            is_async: self.is_async,
            deprecated: self.deprecated,
            extends: self.extends.duplicate(),
        }
    }
}

impl Define {
    /// A field-level copy.
    pub fn duplicate(&self) -> (r: Define)
        ensures
            r@ == self@,
    {
        let mut extends: Vec<Extends> = Vec::new();
        let mut i: usize = 0;
        while i < self.extends.len()
            invariant
                i <= self.extends.len(),
                extends.len() == i,
                forall|k: int| 0 <= k < i ==> (#[trigger] extends@[k])@ == self.extends@[k]@,
            decreases self.extends.len() - i,
        {
            extends.push(self.extends[i].duplicate());
            i += 1;
        }
        proof {
            assert forall|k: int| 0 <= k < extends.deep_view().len() implies extends.deep_view()[k]
                == self.extends.deep_view()[k] by {
                assert(extends@[k]@ == self.extends@[k]@);
            }
            assert(extends.deep_view() =~= self.extends.deep_view());
        }
        Define { define_type: self.define_type, location: self.location.duplicate(), extends }
    }
}

impl Definition {
    /// A field-level copy.
    pub fn duplicate(&self) -> (r: Definition)
        ensures
            r@ == self@,
    {
        let mut defines: Vec<Define> = Vec::new();
        let mut i: usize = 0;
        while i < self.defines.len()
            invariant
                i <= self.defines.len(),
                defines.len() == i,
                forall|k: int| 0 <= k < i ==> (#[trigger] defines@[k])@ == self.defines@[k]@,
            decreases self.defines.len() - i,
        {
            defines.push(self.defines[i].duplicate());
            i += 1;
        }
        proof {
            assert forall|k: int| 0 <= k < defines.deep_view().len() implies defines.deep_view()[k]
                == self.defines.deep_view()[k] by {
                assert(defines@[k]@ == self.defines@[k]@);
            }
            assert(defines.deep_view() =~= self.defines.deep_view());
        }
        let mut fields: Vec<Field> = Vec::new();
        let mut j: usize = 0;
        while j < self.fields.len()
            invariant
                j <= self.fields.len(),
                fields.len() == j,
                forall|k: int| 0 <= k < j ==> (#[trigger] fields@[k])@ == self.fields@[k]@,
            decreases self.fields.len() - j,
        {
            fields.push(self.fields[j].duplicate());
            j += 1;
        }
        proof {
            assert forall|k: int| 0 <= k < fields.deep_view().len() implies fields.deep_view()[k]
                == self.fields.deep_view()[k] by {
                assert(fields@[k]@ == self.fields@[k]@);
            }
            assert(fields.deep_view() =~= self.fields.deep_view());
        }
        Definition {
            name: self.name.clone(),
            desc: strutil::clone_opt_string(&self.desc),
            definition_type: self.definition_type,
            rawdesc: strutil::clone_opt_string(&self.rawdesc),
            defines,
            fields,
        }
    }
}

} // verus!
