//! The node schema: one variant per element kind of the dump, with the
//! attributes that each kind carries already decoded to typed values.

use vstd::prelude::*;

verus! {

/// A reference to another node by the numeral of its identifier. It may name
/// a node that the table does not hold.
#[derive(Debug, Clone, Copy, PartialEq, Eq, Structural)]
pub struct IdRef(pub u64);

/// A presence-encoded flag after decoding.
#[derive(Debug, Clone, Copy, PartialEq, Eq, Structural)]
pub struct Bool(pub bool);

/// A declared name.
#[derive(Debug, PartialEq, Eq)]
pub struct Name(pub String);

impl Clone for Name {
    fn clone(&self) -> (r: Self)
        ensures
            r == *self,
    {
        Name(self.0.clone())
    }
}

/// Marks a name attribute that is present and empty, as on anonymous records.
#[derive(Debug, Clone, Copy, PartialEq, Eq, Structural)]
pub struct Empty();

/// A name that may be empty.
#[derive(Debug, PartialEq, Eq)]
pub struct NameOrEmpty(pub Result<Name, Empty>);

impl Clone for NameOrEmpty {
    fn clone(&self) -> (r: Self)
        ensures
            r == *self,
    {
        match &self.0 {
            Ok(name) => NameOrEmpty(Ok(name.clone())),
            Err(empty) => NameOrEmpty(Err(*empty)),
        }
    }
}

impl NameOrEmpty {
    /// The characters of the name; none for an empty name.
    pub open spec fn text(&self) -> Seq<char> {
        match self.0 {
            Ok(name) => name.0@,
            Err(_) => Seq::empty(),
        }
    }
}

/// Source text of an expression, kept verbatim.
#[derive(Debug, Clone, PartialEq, Eq)]
pub struct Expression(pub String);

/// The attribute list of a declaration, kept verbatim.
#[derive(Debug, Clone, PartialEq, Eq)]
pub struct Attributes(pub String);

/// The numeral of a node's own identifier.
#[derive(Debug, Clone, Copy, PartialEq, Eq, Structural)]
pub struct Id(pub u64);

/// The access level of a declaration or of a base.
#[derive(Debug, Clone, Copy, PartialEq, Eq, Structural)]
pub enum Access {
    Public,
    Protected,
    Private,
}

/// An argument of a function or method.
#[derive(Debug, Clone, PartialEq, Eq)]
pub struct Argument {
    pub name: Option<Name>,
    pub type_: IdRef,
    pub original_type: Option<IdRef>,
    pub location: Option<String>,
    pub default: Option<Expression>,
    pub attributes: Option<Attributes>,
}

/// A function. The flags are decoded from their presence encoding.
#[derive(Debug, Clone, PartialEq, Eq)]
pub struct Function {
    pub arguments: Vec<Argument>,
    pub id: Id,
    pub name: NameOrEmpty,
    pub returns_: Option<IdRef>,
    pub context: Option<IdRef>,
    pub static_: Bool,
    pub inline: Bool,
    pub extern_: Bool,
    pub artificial: Bool,
    pub mangled: Option<String>,
    pub attributes: Option<Attributes>,
    pub location: Option<String>,
}

/// A method: a function with what only members of records have.
#[derive(Debug, Clone, PartialEq, Eq)]
pub struct Method {
    pub function: Function,
    pub access: Access,
    pub explicit: Bool,
    pub const_: Bool,
    pub virtual_: Bool,
    pub pure_virtual: Bool,
    pub overrides: Vec<IdRef>,
}

/// The type of a function.
#[derive(Debug, Clone, PartialEq, Eq)]
pub struct FunctionType {
    pub arguments: Vec<IdRef>,
    pub id: Id,
    pub returns_: IdRef,
    pub const_: Bool,
    pub volatile_: Bool,
    pub restrict_: Bool,
    pub attributes: Option<Attributes>,
}

/// One entry of the list of bases of a record.
#[derive(Debug, Clone, PartialEq, Eq)]
pub struct Base {
    pub type_: IdRef,
    pub access: Access,
    pub virtual_: Bool,
    pub offset: Option<u64>,
}

/// The shape that structs, unions and classes share. Size and alignment
/// are in bits, as the dump reports them.
#[derive(Debug, Clone, PartialEq, Eq)]
pub struct Record {
    pub base: Vec<Base>,
    pub id: Id,
    pub name: NameOrEmpty,
    pub context: Option<IdRef>,
    pub access: Option<Access>,
    pub location: Option<String>,
    pub incomplete: Bool,
    pub abstract_: Bool,
    pub artificial: Bool,
    pub members: Option<Vec<IdRef>>,
    pub size: Option<u64>,
    pub align: Option<u64>,
    pub attributes: Option<Attributes>,
}

/// An enumerator.
#[derive(Debug, Clone, PartialEq, Eq)]
pub struct EnumValue {
    pub name: Name,
    pub init: i64,
    pub attributes: Option<Attributes>,
}

/// A node: one variant for each kind of element.
#[derive(Debug, Clone, PartialEq, Eq)]
#[allow(inconsistent_fields)]
pub enum Item {
    File { id: Id, name: Name },
    Namespace { id: Id, name: NameOrEmpty, context: Option<IdRef>, members: Option<Vec<IdRef>> },
    Comment { id: Id, attached: IdRef, file: IdRef, begin_line: u32, end_line: u32 },
    Struct(Record),
    Union(Record),
    Class(Record),
    Enumeration {
        values: Vec<EnumValue>,
        id: Id,
        name: NameOrEmpty,
        type_: IdRef,
        context: Option<IdRef>,
        access: Option<Access>,
        scoped: Bool,
        artificial: Bool,
        size: u64,
        align: u64,
    },
    Variable {
        id: Id,
        name: Name,
        type_: IdRef,
        init: Option<Expression>,
        context: Option<IdRef>,
        access: Option<Access>,
        static_: Bool,
        extern_: Bool,
        artificial: Bool,
        mangled: Option<String>,
    },
    Field {
        id: Id,
        name: NameOrEmpty,
        type_: IdRef,
        bits: Option<u32>,
        context: IdRef,
        access: Access,
        offset: u64,
        mutable: Bool,
        artificial: Bool,
        location: Option<String>,
    },
    Function(Function),
    OperatorFunction(Function),
    Constructor(Method),
    Destructor(Method),
    Method(Method),
    OperatorMethod(Method),
    Converter(Method),
    Typedef { id: Id, name: Name, type_: IdRef, context: Option<IdRef>, access: Option<Access> },
    FundamentalType { id: Id, name: Name, size: Option<u64>, align: Option<u64> },
    CvQualifiedType { id: Id, type_: IdRef, const_: Bool, volatile_: Bool, restrict_: Bool },
    PointerType { id: Id, type_: IdRef, size: Option<u64>, align: Option<u64> },
    OffsetType { id: Id, basetype: IdRef, type_: IdRef },
    ReferenceType { id: Id, type_: IdRef, size: Option<u64>, align: Option<u64> },
    ArrayType { id: Id, type_: IdRef, min: u64, max: Option<u64> },
    ElaboratedType { id: Id, type_: IdRef },
    FunctionType(FunctionType),
    MethodType { signature: FunctionType, basetype: IdRef },
    Unimplemented { id: Id, kind: Option<Name>, type_class: Option<Name> },
}

/// The node table of one dump, in document order, with the format version
/// that its root element declared.
#[derive(Debug, Clone, PartialEq, Eq)]
pub struct CastXML {
    pub format: String,
    pub items: Vec<Item>,
}

impl Item {
    /// The numeral of the node's own identifier.
    pub open spec fn spec_id(&self) -> u64 {
        match *self {
            Item::File { id, .. } => id.0,
            Item::Namespace { id, .. } => id.0,
            Item::Comment { id, .. } => id.0,
            Item::Struct(r) => r.id.0,
            Item::Union(r) => r.id.0,
            Item::Class(r) => r.id.0,
            Item::Enumeration { id, .. } => id.0,
            Item::Variable { id, .. } => id.0,
            Item::Field { id, .. } => id.0,
            Item::Function(f) => f.id.0,
            Item::OperatorFunction(f) => f.id.0,
            Item::Constructor(m) => m.function.id.0,
            Item::Destructor(m) => m.function.id.0,
            Item::Method(m) => m.function.id.0,
            Item::OperatorMethod(m) => m.function.id.0,
            Item::Converter(m) => m.function.id.0,
            Item::Typedef { id, .. } => id.0,
            Item::FundamentalType { id, .. } => id.0,
            Item::CvQualifiedType { id, .. } => id.0,
            Item::PointerType { id, .. } => id.0,
            Item::OffsetType { id, .. } => id.0,
            Item::ReferenceType { id, .. } => id.0,
            Item::ArrayType { id, .. } => id.0,
            Item::ElaboratedType { id, .. } => id.0,
            Item::FunctionType(t) => t.id.0,
            Item::MethodType { signature, .. } => signature.id.0,
            Item::Unimplemented { id, .. } => id.0,
        }
    }

    /// The node's own identifier.
    pub fn id(&self) -> (r: Id)
        ensures
            r.0 == self.spec_id(),
    {
        match self {
            Item::File { id, .. } => *id,
            Item::Namespace { id, .. } => *id,
            Item::Comment { id, .. } => *id,
            Item::Struct(r) => r.id,
            Item::Union(r) => r.id,
            Item::Class(r) => r.id,
            Item::Enumeration { id, .. } => *id,
            Item::Variable { id, .. } => *id,
            Item::Field { id, .. } => *id,
            Item::Function(f) => f.id,
            Item::OperatorFunction(f) => f.id,
            Item::Constructor(m) => m.function.id,
            Item::Destructor(m) => m.function.id,
            Item::Method(m) => m.function.id,
            Item::OperatorMethod(m) => m.function.id,
            Item::Converter(m) => m.function.id,
            Item::Typedef { id, .. } => *id,
            Item::FundamentalType { id, .. } => *id,
            Item::CvQualifiedType { id, .. } => *id,
            Item::PointerType { id, .. } => *id,
            Item::OffsetType { id, .. } => *id,
            Item::ReferenceType { id, .. } => *id,
            Item::ArrayType { id, .. } => *id,
            Item::ElaboratedType { id, .. } => *id,
            Item::FunctionType(t) => t.id,
            Item::MethodType { signature, .. } => signature.id,
            Item::Unimplemented { id, .. } => *id,
        }
    }
}

} // verus!
