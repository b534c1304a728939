//! The data model of the next revision of the language: built-in types are
//! named apart from user types, and array shapes are attributes.
use vstd::prelude::*;

verus! {

#[derive(Debug, Clone, PartialEq, Eq, Hash)]
pub struct Identifier {
    pub name: String,
}

impl View for Identifier {
    type V = Seq<char>;

    open spec fn view(&self) -> Seq<char> {
        self.name@
    }
}

impl Identifier {
    pub fn new(name: &str) -> (r: Identifier)
        ensures
            r@ == name@,
    {
        Identifier { name: String::from_str(name) }
    }
}

#[derive(Debug, Clone, PartialEq, Eq, Hash)]
pub enum Attribute {
    Bits(usize),
    Bytes(usize),
    Discriminator(Identifier),
    StaticArray(usize),
    DynamicArray(Identifier),
}

#[derive(Debug, Clone, Copy, PartialEq, Eq, Structural, Hash)]
pub enum BuiltinType {
    SignedInteger8,
    SignedInteger16,
    SignedInteger32,
    SignedInteger64,
    UnsignedInteger8,
    UnsignedInteger16,
    UnsignedInteger32,
    UnsignedInteger64,
    Float32,
    Float64,
    Boolean,
    Bit,
    Byte,
}

#[derive(Debug, Clone, PartialEq, Eq, Hash)]
pub enum Type {
    Builtin(BuiltinType),
    UserDefined(Identifier),
}

#[derive(Debug, Clone, PartialEq, Eq, Hash)]
pub struct StructureField {
    pub name: Identifier,
    pub typ: Type,
    pub attributes: Vec<Attribute>,
}

#[derive(Debug, Clone, PartialEq, Eq, Hash)]
pub struct Structure {
    pub name: Identifier,
    pub fields: Vec<StructureField>,
}

#[derive(Debug, Clone, PartialEq, Eq, Hash)]
pub enum EnumerationField {
    SingleValue { name: Identifier, value: usize },
    RangeOfValues { name: Identifier, from: usize, to: usize },
}

#[derive(Debug, Clone, PartialEq, Eq, Hash)]
pub struct Enumeration {
    pub name: Identifier,
    pub fields: Vec<EnumerationField>,
    pub attributes: Vec<Attribute>,
}

#[derive(Debug, Clone, PartialEq, Eq, Hash)]
pub enum UnionField {
    SingleValue {
        name: Identifier,
        typ: Type,
        discriminator: usize,
        attributes: Vec<Attribute>,
    },
    RangeOfValues {
        name: Identifier,
        typ: Type,
        discriminator_from: usize,
        discriminator_to: usize,
        attributes: Vec<Attribute>,
    },
}

#[derive(Debug, Clone, PartialEq, Eq, Hash)]
pub struct Union {
    pub name: Identifier,
    pub fields: Vec<UnionField>,
}

#[derive(Debug, Clone, PartialEq, Eq, Hash)]
pub enum Definition {
    Enumeration(Enumeration),
    Structure(Structure),
    Union(Union),
}

#[derive(Debug, Clone, PartialEq, Eq, Hash)]
pub struct Module {
    pub definitions: Vec<Definition>,
}

/// The model of an [`Attribute`].
pub enum SpecAttribute {
    Bits(usize),
    Bytes(usize),
    Discriminator(Seq<char>),
    StaticArray(usize),
    DynamicArray(Seq<char>),
}

impl View for Attribute {
    type V = SpecAttribute;

    open spec fn view(&self) -> SpecAttribute {
        match self {
            Attribute::Bits(n) => SpecAttribute::Bits(*n),
            Attribute::Bytes(n) => SpecAttribute::Bytes(*n),
            Attribute::Discriminator(id) => SpecAttribute::Discriminator(id@),
            Attribute::StaticArray(n) => SpecAttribute::StaticArray(*n),
            Attribute::DynamicArray(id) => SpecAttribute::DynamicArray(id@),
        }
    }
}

pub open spec fn attributes_view(v: Seq<Attribute>) -> Seq<SpecAttribute> {
    v.map_values(|a: Attribute| a@)
}

pub enum SpecType {
    Builtin(BuiltinType),
    UserDefined(Seq<char>),
}

impl View for Type {
    type V = SpecType;

    open spec fn view(&self) -> SpecType {
        match self {
            Type::Builtin(b) => SpecType::Builtin(*b),
            Type::UserDefined(id) => SpecType::UserDefined(id@),
        }
    }
}

pub struct SpecStructureField {
    pub name: Seq<char>,
    pub typ: SpecType,
    pub attributes: Seq<SpecAttribute>,
}

impl View for StructureField {
    type V = SpecStructureField;

    open spec fn view(&self) -> SpecStructureField {
        SpecStructureField {
            name: self.name@,
            typ: self.typ@,
            attributes: attributes_view(self.attributes@),
        }
    }
}

pub struct SpecStructure {
    pub name: Seq<char>,
    pub fields: Seq<SpecStructureField>,
}

impl View for Structure {
    type V = SpecStructure;

    open spec fn view(&self) -> SpecStructure {
        SpecStructure { name: self.name@, fields: self.fields@.map_values(|f: StructureField| f@) }
    }
}

pub enum SpecEnumerationField {
    SingleValue(Seq<char>, usize),
    RangeOfValues(Seq<char>, usize, usize),
}

impl View for EnumerationField {
    type V = SpecEnumerationField;

    open spec fn view(&self) -> SpecEnumerationField {
        match self {
            EnumerationField::SingleValue { name, value } => SpecEnumerationField::SingleValue(
                name@,
                *value,
            ),
            EnumerationField::RangeOfValues { name, from, to } =>
                SpecEnumerationField::RangeOfValues(name@, *from, *to),
        }
    }
}

pub struct SpecEnumeration {
    pub name: Seq<char>,
    pub fields: Seq<SpecEnumerationField>,
    pub attributes: Seq<SpecAttribute>,
}

impl View for Enumeration {
    type V = SpecEnumeration;

    open spec fn view(&self) -> SpecEnumeration {
        SpecEnumeration {
            name: self.name@,
            fields: self.fields@.map_values(|f: EnumerationField| f@),
            attributes: attributes_view(self.attributes@),
        }
    }
}

pub enum SpecUnionField {
    SingleValue(Seq<char>, SpecType, usize, Seq<SpecAttribute>),
    RangeOfValues(Seq<char>, SpecType, usize, usize, Seq<SpecAttribute>),
}

impl View for UnionField {
    type V = SpecUnionField;

    open spec fn view(&self) -> SpecUnionField {
        match self {
            UnionField::SingleValue { name, typ, discriminator, attributes } =>
                SpecUnionField::SingleValue(
                name@,
                typ@,
                *discriminator,
                attributes_view(attributes@),
            ),
            UnionField::RangeOfValues {
                name,
                typ,
                discriminator_from,
                discriminator_to,
                attributes,
            } => SpecUnionField::RangeOfValues(
                name@,
                typ@,
                *discriminator_from,
                *discriminator_to,
                attributes_view(attributes@),
            ),
        }
    }
}

pub struct SpecUnion {
    pub name: Seq<char>,
    pub fields: Seq<SpecUnionField>,
}

impl View for Union {
    type V = SpecUnion;

    open spec fn view(&self) -> SpecUnion {
        SpecUnion { name: self.name@, fields: self.fields@.map_values(|f: UnionField| f@) }
    }
}

pub enum SpecDefinition {
    Enumeration(SpecEnumeration),
    Structure(SpecStructure),
    Union(SpecUnion),
}

impl View for Definition {
    type V = SpecDefinition;

    open spec fn view(&self) -> SpecDefinition {
        match self {
            Definition::Enumeration(e) => SpecDefinition::Enumeration(e@),
            Definition::Structure(s) => SpecDefinition::Structure(s@),
            Definition::Union(u) => SpecDefinition::Union(u@),
        }
    }
}

impl View for Module {
    type V = Seq<SpecDefinition>;

    open spec fn view(&self) -> Seq<SpecDefinition> {
        self.definitions@.map_values(|d: Definition| d@)
    }
}

} // verus!
