//! The resolved declaration tree: records, functions and lowered types in
//! which every reference has been followed.

use crate::model::{text_of, views};
use crate::schema::Access;
use std::sync::Arc;
use vstd::prelude::*;

verus! {

/// A lowered type expression.
#[derive(Debug, PartialEq, Eq)]
pub enum Type {
    Fundamental(String),
    Pointer(Box<Type>),
    Reference(Box<Type>),
    /// Element type and, where the dump bounds it, the number of elements.
    Array(Box<Type>, Option<u64>),
    Qualified { inner: Box<Type>, const_: bool, volatile_: bool, restrict_: bool },
    RecordRef { id: u64, name: String },
    /// An enumeration, with its size and alignment in bits as the dump
    /// reports them.
    EnumRef { id: u64, name: String, size: u64, align: u64 },
    FunctionSignature { returns_: Box<Type>, arguments: Vec<Type> },
}

/// What a lowered type is, with sequences in place of vectors and strings.
pub ghost enum TypeView {
    Fundamental(Seq<char>),
    Pointer(Box<TypeView>),
    Reference(Box<TypeView>),
    Array(Box<TypeView>, Option<u64>),
    Qualified { inner: Box<TypeView>, const_: bool, volatile_: bool, restrict_: bool },
    RecordRef { id: u64, name: Seq<char> },
    EnumRef { id: u64, name: Seq<char>, size: u64, align: u64 },
    FunctionSignature { returns_: Box<TypeView>, arguments: Seq<TypeView> },
}

impl Type {
    /// The type as a value of its model.
    pub open spec fn model(self) -> TypeView
        decreases self,
    {
        match self {
            Type::Fundamental(name) => TypeView::Fundamental(name@),
            Type::Pointer(inner) => TypeView::Pointer(Box::new((*inner).model())),
            Type::Reference(inner) => TypeView::Reference(Box::new((*inner).model())),
            Type::Array(inner, length) => TypeView::Array(Box::new((*inner).model()), length),
            Type::Qualified { inner, const_, volatile_, restrict_ } => TypeView::Qualified {
                inner: Box::new((*inner).model()),
                const_,
                volatile_,
                restrict_,
            },
            Type::RecordRef { id, name } => TypeView::RecordRef { id, name: name@ },
            Type::EnumRef { id, name, size, align } => TypeView::EnumRef { id, name: name@, size, align },
            Type::FunctionSignature { returns_, arguments } => TypeView::FunctionSignature {
                returns_: Box::new((*returns_).model()),
                arguments: Seq::new(
                    arguments@.len(),
                    |i: int|
                        if 0 <= i < arguments@.len() {
                            arguments@[i].model()
                        } else {
                            TypeView::Fundamental(Seq::empty())
                        },
                ),
            },
        }
    }
}

impl View for Type {
    type V = TypeView;

    open spec fn view(&self) -> TypeView {
        self.model()
    }
}

/// A lowered argument.
#[derive(Debug, PartialEq, Eq)]
pub struct Argument {
    /// The argument's name; empty where the declaration gives none.
    pub name: String,
    pub type_: Type,
    /// Source text of the default value, verbatim.
    pub default: Option<String>,
}

/// What a lowered argument is.
pub ghost struct ArgumentView {
    pub name: Seq<char>,
    pub type_: TypeView,
    pub default: Option<Seq<char>>,
}

impl View for Argument {
    type V = ArgumentView;

    open spec fn view(&self) -> ArgumentView {
        ArgumentView { name: self.name@, type_: self.type_@, default: text_of(self.default) }
    }
}

/// A lowered signature: the return type, absent where the declaration has
/// none, and the arguments in order.
#[derive(Debug, PartialEq, Eq)]
pub struct Signature {
    pub returns_: Option<Type>,
    pub arguments: Vec<Argument>,
}

/// What a lowered signature is.
pub ghost struct SignatureView {
    pub returns_: Option<TypeView>,
    pub arguments: Seq<ArgumentView>,
}

impl View for Signature {
    type V = SignatureView;

    open spec fn view(&self) -> SignatureView {
        SignatureView {
            returns_: match self.returns_ {
                Some(t) => Some(t@),
                None => None,
            },
            arguments: views(self.arguments@),
        }
    }
}

/// A lowered function.
#[derive(Debug, PartialEq, Eq)]
pub struct Function {
    pub id: u64,
    pub name: String,
    pub signature: Signature,
}

/// What a lowered function is.
pub ghost struct FunctionView {
    pub id: u64,
    pub name: Seq<char>,
    pub signature: SignatureView,
}

impl View for Function {
    type V = FunctionView;

    open spec fn view(&self) -> FunctionView {
        FunctionView { id: self.id, name: self.name@, signature: self.signature@ }
    }
}

/// An override edge: the overridden method and its lowered signature.
#[derive(Debug, PartialEq, Eq)]
pub struct Override {
    pub id: u64,
    pub signature: Signature,
}

/// What an override edge is.
pub ghost struct OverrideView {
    pub id: u64,
    pub signature: SignatureView,
}

impl View for Override {
    type V = OverrideView;

    open spec fn view(&self) -> OverrideView {
        OverrideView { id: self.id, signature: self.signature@ }
    }
}

/// Which kind of method a lowered method is.
#[derive(Debug, Clone, Copy, PartialEq, Eq, Structural)]
pub enum MethodKind {
    Constructor,
    Destructor,
    Method,
    OperatorMethod,
    Converter,
}

/// A lowered method.
#[derive(Debug, PartialEq, Eq)]
pub struct Method {
    pub function: Function,
    /// The record that declares the method.
    pub owner: u64,
    pub kind: MethodKind,
    pub access: Access,
    pub static_: bool,
    pub explicit: bool,
    pub const_: bool,
    pub virtual_: bool,
    pub pure_virtual: bool,
    pub overrides: Vec<Override>,
}

/// What a lowered method is.
pub ghost struct MethodView {
    pub function: FunctionView,
    pub owner: u64,
    pub kind: MethodKind,
    pub access: Access,
    pub static_: bool,
    pub explicit: bool,
    pub const_: bool,
    pub virtual_: bool,
    pub pure_virtual: bool,
    pub overrides: Seq<OverrideView>,
}

impl View for Method {
    type V = MethodView;

    open spec fn view(&self) -> MethodView {
        MethodView {
            function: self.function@,
            owner: self.owner,
            kind: self.kind,
            access: self.access,
            static_: self.static_,
            explicit: self.explicit,
            const_: self.const_,
            virtual_: self.virtual_,
            pure_virtual: self.pure_virtual,
            overrides: views(self.overrides@),
        }
    }
}

/// A lowered field.
#[derive(Debug, PartialEq, Eq)]
pub struct Field {
    pub id: u64,
    pub name: String,
    pub type_: Type,
    /// The record that declares the field.
    pub owner: u64,
    pub access: Access,
    /// Offset in bits, as the dump reports it.
    pub offset: u64,
    pub bits: Option<u32>,
}

/// What a lowered field is.
pub ghost struct FieldView {
    pub id: u64,
    pub name: Seq<char>,
    pub type_: TypeView,
    pub owner: u64,
    pub access: Access,
    pub offset: u64,
    pub bits: Option<u32>,
}

impl View for Field {
    type V = FieldView;

    open spec fn view(&self) -> FieldView {
        FieldView {
            id: self.id,
            name: self.name@,
            type_: self.type_@,
            owner: self.owner,
            access: self.access,
            offset: self.offset,
            bits: self.bits,
        }
    }
}

/// One entry of a record's flattened list of bases.
#[derive(Debug, PartialEq, Eq)]
pub struct BaseEntry {
    /// The base record.
    pub id: u64,
    pub name: String,
    /// The access under which the base is reached from the record: the most
    /// restrictive on the way to it.
    pub access: Access,
    /// Whether the base is inherited virtually at its own level.
    pub virtual_: bool,
    /// How many levels above the record the base stands; 1 for a direct base.
    pub depth: usize,
}

/// What an entry of a flattened list of bases is.
pub ghost struct BaseView {
    pub id: u64,
    pub name: Seq<char>,
    pub access: Access,
    pub virtual_: bool,
    pub depth: nat,
}

impl View for BaseEntry {
    type V = BaseView;

    open spec fn view(&self) -> BaseView {
        BaseView {
            id: self.id,
            name: self.name@,
            access: self.access,
            virtual_: self.virtual_,
            depth: self.depth as nat,
        }
    }
}

/// Which kind of record a lowered record is.
#[derive(Debug, Clone, Copy, PartialEq, Eq, Structural)]
pub enum RecordKind {
    Struct,
    Union,
    Class,
}

/// A lowered record.
#[derive(Debug, PartialEq, Eq)]
pub struct Record {
    pub id: u64,
    pub name: String,
    pub kind: RecordKind,
    pub fields: Vec<Field>,
    pub bases: Vec<BaseEntry>,
    pub methods: Vec<Method>,
    /// Size in bits, as the dump reports it.
    pub size: Option<u64>,
    /// Alignment in bits, as the dump reports it.
    pub align: Option<u64>,
}

/// What a lowered record is.
pub ghost struct RecordView {
    pub id: u64,
    pub name: Seq<char>,
    pub kind: RecordKind,
    pub fields: Seq<FieldView>,
    pub bases: Seq<BaseView>,
    pub methods: Seq<MethodView>,
    pub size: Option<u64>,
    pub align: Option<u64>,
}

impl View for Record {
    type V = RecordView;

    open spec fn view(&self) -> RecordView {
        RecordView {
            id: self.id,
            name: self.name@,
            kind: self.kind,
            fields: views(self.fields@),
            bases: views(self.bases@),
            methods: views(self.methods@),
            size: self.size,
            align: self.align,
        }
    }
}

/// A declaration of the tree.
#[derive(Debug, PartialEq, Eq)]
pub enum Item {
    Function(Function),
    Record(Record),
}

/// What a declaration of the tree is.
pub ghost enum ItemView {
    Function(FunctionView),
    Record(RecordView),
}

impl View for Item {
    type V = ItemView;

    open spec fn view(&self) -> ItemView {
        match self {
            Item::Function(f) => ItemView::Function(f@),
            Item::Record(r) => ItemView::Record(r@),
        }
    }
}

/// The resolved declaration tree, in document order. Its declarations can
/// be shared among those that read the tree.
#[derive(Debug, PartialEq, Eq)]
pub struct AST {
    pub items: Vec<Arc<Item>>,
}

/// What a tree is.
pub ghost struct ASTView {
    pub items: Seq<ItemView>,
}

impl View for AST {
    type V = ASTView;

    open spec fn view(&self) -> ASTView {
        ASTView { items: views(self.items@) }
    }
}

} // verus!
