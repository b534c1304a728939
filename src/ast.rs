//! The abstract syntax tree of a protocol, and its mathematical model.
//!
//! Every executable type has a view whose names are plain character
//! sequences; the contracts of the parser, the resolver and the code
//! generator are stated over those views.
use vstd::prelude::*;

verus! {

/// A name used to refer to types and fields.
#[derive(Debug, Clone, PartialEq, Eq, Hash)]
pub struct Identifier {
    pub name: String,
}

impl View for Identifier {
    type V = Seq<char>;

    open spec fn view(&self) -> Seq<char> {
        self.name@
    }
}

impl Identifier {
    pub fn new(name: &str) -> (r: Identifier)
        ensures
            r@ == name@,
    {
        Identifier { name: String::from_str(name) }
    }

    /// A copy of this identifier.
    pub fn duplicate(&self) -> (r: Identifier)
        ensures
            r@ == self@,
    {
        Identifier { name: self.name.clone() }
    }
}

/// A type reference: a built-in scalar, a user-defined name, or an array of
/// another type reference.
#[derive(Debug, PartialEq, Eq, Hash)]
pub enum TypeIdentifier {
    Integer8,
    Integer16,
    Integer32,
    Integer64,
    UnsignedInteger8,
    UnsignedInteger16,
    UnsignedInteger32,
    UnsignedInteger64,
    Float32,
    Float64,
    Bit,
    Byte,
    UserDefined(Identifier),
    StaticArray { typ: Box<TypeIdentifier>, size: u64 },
    DynamicArray { typ: Box<TypeIdentifier> },
}

/// The model of a [`TypeIdentifier`].
pub enum SpecType {
    Integer8,
    Integer16,
    Integer32,
    Integer64,
    UnsignedInteger8,
    UnsignedInteger16,
    UnsignedInteger32,
    UnsignedInteger64,
    Float32,
    Float64,
    Bit,
    Byte,
    UserDefined(Seq<char>),
    StaticArray(Box<SpecType>, u64),
    DynamicArray(Box<SpecType>),
}

pub open spec fn type_model(t: TypeIdentifier) -> SpecType
    decreases t,
{
    match t {
        TypeIdentifier::Integer8 => SpecType::Integer8,
        TypeIdentifier::Integer16 => SpecType::Integer16,
        TypeIdentifier::Integer32 => SpecType::Integer32,
        TypeIdentifier::Integer64 => SpecType::Integer64,
        TypeIdentifier::UnsignedInteger8 => SpecType::UnsignedInteger8,
        TypeIdentifier::UnsignedInteger16 => SpecType::UnsignedInteger16,
        TypeIdentifier::UnsignedInteger32 => SpecType::UnsignedInteger32,
        TypeIdentifier::UnsignedInteger64 => SpecType::UnsignedInteger64,
        TypeIdentifier::Float32 => SpecType::Float32,
        TypeIdentifier::Float64 => SpecType::Float64,
        TypeIdentifier::Bit => SpecType::Bit,
        TypeIdentifier::Byte => SpecType::Byte,
        TypeIdentifier::UserDefined(id) => SpecType::UserDefined(id@),
        TypeIdentifier::StaticArray { typ, size } => SpecType::StaticArray(
            Box::new(type_model(*typ)),
            size,
        ),
        TypeIdentifier::DynamicArray { typ } => SpecType::DynamicArray(Box::new(type_model(*typ))),
    }
}

impl View for TypeIdentifier {
    type V = SpecType;

    open spec fn view(&self) -> SpecType {
        type_model(*self)
    }
}

impl Clone for TypeIdentifier {
    fn clone(&self) -> (r: TypeIdentifier)
        ensures
            r@ == self@,
    {
        self.duplicate()
    }
}

impl TypeIdentifier {
    /// A copy of this type reference.
    pub fn duplicate(&self) -> (r: TypeIdentifier)
        ensures
            r@ == self@,
        decreases self,
    {
        match self {
            TypeIdentifier::Integer8 => TypeIdentifier::Integer8,
            TypeIdentifier::Integer16 => TypeIdentifier::Integer16,
            TypeIdentifier::Integer32 => TypeIdentifier::Integer32,
            TypeIdentifier::Integer64 => TypeIdentifier::Integer64,
            TypeIdentifier::UnsignedInteger8 => TypeIdentifier::UnsignedInteger8,
            TypeIdentifier::UnsignedInteger16 => TypeIdentifier::UnsignedInteger16,
            TypeIdentifier::UnsignedInteger32 => TypeIdentifier::UnsignedInteger32,
            TypeIdentifier::UnsignedInteger64 => TypeIdentifier::UnsignedInteger64,
            TypeIdentifier::Float32 => TypeIdentifier::Float32,
            TypeIdentifier::Float64 => TypeIdentifier::Float64,
            TypeIdentifier::Bit => TypeIdentifier::Bit,
            TypeIdentifier::Byte => TypeIdentifier::Byte,
            TypeIdentifier::UserDefined(id) => TypeIdentifier::UserDefined(id.duplicate()),
            TypeIdentifier::StaticArray { typ, size } => TypeIdentifier::StaticArray {
                typ: Box::new(typ.duplicate()),
                size: *size,
            },
            TypeIdentifier::DynamicArray { typ } => TypeIdentifier::DynamicArray {
                typ: Box::new(typ.duplicate()),
            },
        }
    }
}

/// The user-defined name that a type reference mentions, looking through
/// array wrappers; none for a built-in scalar.
pub open spec fn custom_name(t: SpecType) -> Option<Seq<char>>
    decreases t,
{
    match t {
        SpecType::UserDefined(n) => Some(n),
        SpecType::StaticArray(inner, _) => custom_name(*inner),
        SpecType::DynamicArray(inner) => custom_name(*inner),
        _ => None,
    }
}

/// The user-defined names that a sequence of type references mentions, in
/// order, built-in scalars skipped.
pub open spec fn names_of_types(ts: Seq<SpecType>) -> Seq<Seq<char>>
    decreases ts.len(),
{
    if ts.len() == 0 {
        Seq::empty()
    } else {
        let rest = names_of_types(ts.drop_last());
        match custom_name(ts.last()) {
            Some(n) => rest.push(n),
            None => rest,
        }
    }
}

/// A single attribute of a structure field.
#[derive(Debug, Clone, PartialEq, Eq, Hash)]
pub enum Attribute {
    DiscriminatedBy { field: Identifier },
    BitsSize { size: u64 },
    BytesSize { size: u64 },
}

pub enum SpecAttribute {
    DiscriminatedBy(Seq<char>),
    BitsSize(u64),
    BytesSize(u64),
}

impl Attribute {
    /// A copy of this attribute.
    pub fn duplicate(&self) -> (r: Attribute)
        ensures
            r@ == self@,
    {
        match self {
            Attribute::DiscriminatedBy { field } => Attribute::DiscriminatedBy { field: field.duplicate() },
            Attribute::BitsSize { size } => Attribute::BitsSize { size: *size },
            Attribute::BytesSize { size } => Attribute::BytesSize { size: *size },
        }
    }
}

impl View for Attribute {
    type V = SpecAttribute;

    open spec fn view(&self) -> SpecAttribute {
        match self {
            Attribute::DiscriminatedBy { field } => SpecAttribute::DiscriminatedBy(field@),
            Attribute::BitsSize { size } => SpecAttribute::BitsSize(*size),
            Attribute::BytesSize { size } => SpecAttribute::BytesSize(*size),
        }
    }
}

/// A field of an enumeration: one named value, or a named inclusive range.
#[derive(Debug, Clone, PartialEq, Eq, Hash)]
pub enum EnumerationField {
    SingleValue { name: Identifier, value: u64 },
    RangeOfValues { name: Identifier, start: u64, end: u64 },
}

pub enum SpecEnumField {
    SingleValue(Seq<char>, u64),
    RangeOfValues(Seq<char>, u64, u64),
}

impl EnumerationField {
    /// A copy of this field.
    pub fn duplicate(&self) -> (r: EnumerationField)
        ensures
            r@ == self@,
    {
        match self {
            EnumerationField::SingleValue { name, value } => EnumerationField::SingleValue {
                name: name.duplicate(),
                value: *value,
            },
            EnumerationField::RangeOfValues { name, start, end } => EnumerationField::RangeOfValues {
                name: name.duplicate(),
                start: *start,
                end: *end,
            },
        }
    }
}

impl View for EnumerationField {
    type V = SpecEnumField;

    open spec fn view(&self) -> SpecEnumField {
        match self {
            EnumerationField::SingleValue { name, value } => SpecEnumField::SingleValue(
                name@,
                *value,
            ),
            EnumerationField::RangeOfValues { name, start, end } => SpecEnumField::RangeOfValues(
                name@,
                *start,
                *end,
            ),
        }
    }
}

/// An enumeration: a name and its fields.
#[derive(Debug, Clone, PartialEq, Eq, Hash)]
pub struct EnumerationDefinition {
    pub name: Identifier,
    pub fields: Vec<EnumerationField>,
}

pub struct SpecEnum {
    pub name: Seq<char>,
    pub fields: Seq<SpecEnumField>,
}

impl EnumerationDefinition {
    /// A copy of this enumeration.
    pub fn duplicate(&self) -> (r: EnumerationDefinition)
        ensures
            r@ == self@,
    {
        let mut fields: Vec<EnumerationField> = Vec::new();
        let mut i: usize = 0;
        while i < self.fields.len()
            invariant
                i <= self.fields.len(),
                fields@.len() == i,
                forall|k: int| 0 <= k < i ==> fields@[k]@ == self.fields@[k]@,
            decreases self.fields.len() - i,
        {
            fields.push(self.fields[i].duplicate());
            i = i + 1;
        }
        assert(fields@.map_values(|x: EnumerationField| x@) =~= self.fields@.map_values(|x: EnumerationField| x@));
        EnumerationDefinition { name: self.name.duplicate(), fields }
    }
}

impl View for EnumerationDefinition {
    type V = SpecEnum;

    open spec fn view(&self) -> SpecEnum {
        SpecEnum {
            name: self.name@,
            fields: self.fields@.map_values(|f: EnumerationField| f@),
        }
    }
}

/// A field of a structure: its attributes, name and type.
#[derive(Debug, Clone, PartialEq, Eq, Hash)]
pub struct StructureField {
    pub name: Identifier,
    pub typ: TypeIdentifier,
    pub attributes: Vec<Attribute>,
}

pub struct SpecStructField {
    pub name: Seq<char>,
    pub typ: SpecType,
    pub attributes: Seq<SpecAttribute>,
}

impl StructureField {
    /// A copy of this field.
    pub fn duplicate(&self) -> (r: StructureField)
        ensures
            r@ == self@,
    {
        let mut attributes: Vec<Attribute> = Vec::new();
        let mut i: usize = 0;
        while i < self.attributes.len()
            invariant
                i <= self.attributes.len(),
                attributes@.len() == i,
                forall|k: int| 0 <= k < i ==> attributes@[k]@ == self.attributes@[k]@,
            decreases self.attributes.len() - i,
        {
            attributes.push(self.attributes[i].duplicate());
            i = i + 1;
        }
        assert(attributes@.map_values(|x: Attribute| x@) =~= self.attributes@.map_values(|x: Attribute| x@));
        StructureField { name: self.name.duplicate(), typ: self.typ.duplicate(), attributes }
    }
}

impl View for StructureField {
    type V = SpecStructField;

    open spec fn view(&self) -> SpecStructField {
        SpecStructField {
            name: self.name@,
            typ: self.typ@,
            attributes: self.attributes@.map_values(|a: Attribute| a@),
        }
    }
}

/// A structure: a name and its fields in layout order.
#[derive(Debug, Clone, PartialEq, Eq, Hash)]
pub struct StructureDefinition {
    pub name: Identifier,
    pub fields: Vec<StructureField>,
}

pub struct SpecStruct {
    pub name: Seq<char>,
    pub fields: Seq<SpecStructField>,
}

impl StructureDefinition {
    /// A copy of this structure.
    pub fn duplicate(&self) -> (r: StructureDefinition)
        ensures
            r@ == self@,
    {
        let mut fields: Vec<StructureField> = Vec::new();
        let mut i: usize = 0;
        while i < self.fields.len()
            invariant
                i <= self.fields.len(),
                fields@.len() == i,
                forall|k: int| 0 <= k < i ==> fields@[k]@ == self.fields@[k]@,
            decreases self.fields.len() - i,
        {
            fields.push(self.fields[i].duplicate());
            i = i + 1;
        }
        assert(fields@.map_values(|x: StructureField| x@) =~= self.fields@.map_values(|x: StructureField| x@));
        StructureDefinition { name: self.name.duplicate(), fields }
    }
}

impl View for StructureDefinition {
    type V = SpecStruct;

    open spec fn view(&self) -> SpecStruct {
        SpecStruct { name: self.name@, fields: self.fields@.map_values(|f: StructureField| f@) }
    }
}

/// A field of a union: a discriminator value, or an inclusive range of them,
/// mapped to a name and a type.
#[derive(Debug, Clone, PartialEq, Eq, Hash)]
pub enum UnionField {
    SingleValue { name: Identifier, typ: TypeIdentifier, discriminator: u64 },
    RangeOfValues {
        name: Identifier,
        typ: TypeIdentifier,
        start_discriminator: u64,
        end_discriminator: u64,
    },
}

pub enum SpecUnionField {
    SingleValue(Seq<char>, SpecType, u64),
    RangeOfValues(Seq<char>, SpecType, u64, u64),
}

impl UnionField {
    /// A copy of this field.
    pub fn duplicate(&self) -> (r: UnionField)
        ensures
            r@ == self@,
    {
        match self {
            UnionField::SingleValue { name, typ, discriminator } => UnionField::SingleValue {
                name: name.duplicate(),
                typ: typ.duplicate(),
                discriminator: *discriminator,
            },
            UnionField::RangeOfValues { name, typ, start_discriminator, end_discriminator } =>
                UnionField::RangeOfValues {
                name: name.duplicate(),
                typ: typ.duplicate(),
                start_discriminator: *start_discriminator,
                end_discriminator: *end_discriminator,
            },
        }
    }
}

impl View for UnionField {
    type V = SpecUnionField;

    open spec fn view(&self) -> SpecUnionField {
        match self {
            UnionField::SingleValue { name, typ, discriminator } => SpecUnionField::SingleValue(
                name@,
                typ@,
                *discriminator,
            ),
            UnionField::RangeOfValues { name, typ, start_discriminator, end_discriminator } =>
                SpecUnionField::RangeOfValues(
                name@,
                typ@,
                *start_discriminator,
                *end_discriminator,
            ),
        }
    }
}

pub open spec fn union_field_type(f: SpecUnionField) -> SpecType {
    match f {
        SpecUnionField::SingleValue(_, t, _) => t,
        SpecUnionField::RangeOfValues(_, t, _, _) => t,
    }
}

/// A union: a name and its fields.
#[derive(Debug, Clone, PartialEq, Eq, Hash)]
pub struct UnionDefinition {
    pub name: Identifier,
    pub fields: Vec<UnionField>,
}

pub struct SpecUnion {
    pub name: Seq<char>,
    pub fields: Seq<SpecUnionField>,
}

impl UnionDefinition {
    /// A copy of this union.
    pub fn duplicate(&self) -> (r: UnionDefinition)
        ensures
            r@ == self@,
    {
        let mut fields: Vec<UnionField> = Vec::new();
        let mut i: usize = 0;
        while i < self.fields.len()
            invariant
                i <= self.fields.len(),
                fields@.len() == i,
                forall|k: int| 0 <= k < i ==> fields@[k]@ == self.fields@[k]@,
            decreases self.fields.len() - i,
        {
            fields.push(self.fields[i].duplicate());
            i = i + 1;
        }
        assert(fields@.map_values(|x: UnionField| x@) =~= self.fields@.map_values(|x: UnionField| x@));
        UnionDefinition { name: self.name.duplicate(), fields }
    }
}

impl View for UnionDefinition {
    type V = SpecUnion;

    open spec fn view(&self) -> SpecUnion {
        SpecUnion { name: self.name@, fields: self.fields@.map_values(|f: UnionField| f@) }
    }
}

/// A type alias: a new name for a type reference.
#[derive(Debug, Clone, PartialEq, Eq, Hash)]
pub struct TypeDefinition {
    pub new_type: Identifier,
    pub typ: TypeIdentifier,
}

pub struct SpecAlias {
    pub new_type: Seq<char>,
    pub typ: SpecType,
}

impl TypeDefinition {
    /// A copy of this alias.
    pub fn duplicate(&self) -> (r: TypeDefinition)
        ensures
            r@ == self@,
    {
        TypeDefinition { new_type: self.new_type.duplicate(), typ: self.typ.duplicate() }
    }
}

impl View for TypeDefinition {
    type V = SpecAlias;

    open spec fn view(&self) -> SpecAlias {
        SpecAlias { new_type: self.new_type@, typ: self.typ@ }
    }
}

/// One top-level declaration.
#[derive(Debug, Clone, PartialEq, Eq, Hash)]
pub enum Definition {
    Enumeration(EnumerationDefinition),
    Structure(StructureDefinition),
    Union(UnionDefinition),
    Type(TypeDefinition),
}

pub enum SpecDefinition {
    Enumeration(SpecEnum),
    Structure(SpecStruct),
    Union(SpecUnion),
    Type(SpecAlias),
}

impl Definition {
    /// A copy of this declaration.
    pub fn duplicate(&self) -> (r: Definition)
        ensures
            r@ == self@,
    {
        match self {
            Definition::Enumeration(e) => Definition::Enumeration(e.duplicate()),
            Definition::Structure(s) => Definition::Structure(s.duplicate()),
            Definition::Union(u) => Definition::Union(u.duplicate()),
            Definition::Type(t) => Definition::Type(t.duplicate()),
        }
    }

    /// The declared name.
    pub fn identifier(&self) -> (r: &Identifier)
        ensures
            r@ == definition_name(self@),
    {
        match self {
            Definition::Enumeration(e) => &e.name,
            Definition::Structure(s) => &s.name,
            Definition::Union(u) => &u.name,
            Definition::Type(t) => &t.new_type,
        }
    }
}

impl View for Definition {
    type V = SpecDefinition;

    open spec fn view(&self) -> SpecDefinition {
        match self {
            Definition::Enumeration(e) => SpecDefinition::Enumeration(e@),
            Definition::Structure(s) => SpecDefinition::Structure(s@),
            Definition::Union(u) => SpecDefinition::Union(u@),
            Definition::Type(t) => SpecDefinition::Type(t@),
        }
    }
}

/// A whole protocol: its declarations in order.
#[derive(Debug, Clone, PartialEq)]
pub struct Protocol {
    pub definitions: Vec<Definition>,
}

impl View for Protocol {
    type V = Seq<SpecDefinition>;

    open spec fn view(&self) -> Seq<SpecDefinition> {
        self.definitions@.map_values(|d: Definition| d@)
    }
}

/// The name that a declaration declares.
pub open spec fn definition_name(d: SpecDefinition) -> Seq<char> {
    match d {
        SpecDefinition::Enumeration(e) => e.name,
        SpecDefinition::Structure(s) => s.name,
        SpecDefinition::Union(u) => u.name,
        SpecDefinition::Type(t) => t.new_type,
    }
}

pub open spec fn structure_refs(s: SpecStruct) -> Seq<Seq<char>> {
    names_of_types(s.fields.map_values(|f: SpecStructField| f.typ))
}

pub open spec fn union_refs(u: SpecUnion) -> Seq<Seq<char>> {
    names_of_types(u.fields.map_values(|f: SpecUnionField| union_field_type(f)))
}

/// The names that a declaration structurally references, in order.
pub open spec fn definition_refs(d: SpecDefinition) -> Seq<Seq<char>> {
    match d {
        SpecDefinition::Enumeration(_) => Seq::empty(),
        SpecDefinition::Structure(s) => structure_refs(s),
        SpecDefinition::Union(u) => union_refs(u),
        SpecDefinition::Type(t) => match custom_name(t.typ) {
            Some(n) => seq![n],
            None => Seq::empty(),
        },
    }
}

pub open spec fn string_views(v: Seq<String>) -> Seq<Seq<char>> {
    v.map_values(|s: String| s@)
}

/// The user-defined name that a type reference mentions, looking through
/// array wrappers; `None` for a built-in scalar.
pub fn extract_custom_type_identifier_name(type_identifier: &TypeIdentifier) -> (r: Option<
    String,
>)
    ensures
        match r {
            Some(s) => custom_name(type_identifier@) == Some(s@),
            None => custom_name(type_identifier@) is None,
        },
    decreases type_identifier,
{
    match type_identifier {
        TypeIdentifier::UserDefined(id) => Some(id.name.clone()),
        TypeIdentifier::StaticArray { typ, .. } => extract_custom_type_identifier_name(typ),
        TypeIdentifier::DynamicArray { typ } => extract_custom_type_identifier_name(typ),
        _ => None,
    }
}

/// The user-defined names that the fields of a structure mention, in order.
pub fn extract_structure_subtypes(structure_def: &StructureDefinition) -> (r: Vec<String>)
    ensures
        string_views(r@) == structure_refs(structure_def@),
{
    let ghost types = structure_def@.fields.map_values(|f: SpecStructField| f.typ);
    let mut names: Vec<String> = Vec::new();
    let mut i: usize = 0;
    while i < structure_def.fields.len()
        invariant
            i <= structure_def.fields.len(),
            types.len() == structure_def.fields.len(),
            types == structure_def@.fields.map_values(|f: SpecStructField| f.typ),
            string_views(names@) == names_of_types(types.subrange(0, i as int)),
        decreases structure_def.fields.len() - i,
    {
        let name = extract_custom_type_identifier_name(&structure_def.fields[i].typ);
        assert(types.subrange(0, i + 1).drop_last() == types.subrange(0, i as int));
        if let Some(n) = name {
            let ghost before = names@;
            names.push(n);
            assert(string_views(names@) =~= string_views(before).push(n@));
        }
        i = i + 1;
    }
    assert(types.subrange(0, i as int) == types);
    names
}

/// The user-defined names that the fields of a union mention, in order.
pub fn extract_union_subtypes(union_def: &UnionDefinition) -> (r: Vec<String>)
    ensures
        string_views(r@) == union_refs(union_def@),
{
    let ghost types = union_def@.fields.map_values(|f: SpecUnionField| union_field_type(f));
    let mut names: Vec<String> = Vec::new();
    let mut i: usize = 0;
    while i < union_def.fields.len()
        invariant
            i <= union_def.fields.len(),
            types.len() == union_def.fields.len(),
            types == union_def@.fields.map_values(|f: SpecUnionField| union_field_type(f)),
            string_views(names@) == names_of_types(types.subrange(0, i as int)),
        decreases union_def.fields.len() - i,
    {
        let name = match &union_def.fields[i] {
            UnionField::SingleValue { typ, .. } => extract_custom_type_identifier_name(typ),
            UnionField::RangeOfValues { typ, .. } => extract_custom_type_identifier_name(typ),
        };
        assert(types.subrange(0, i + 1).drop_last() == types.subrange(0, i as int));
        if let Some(n) = name {
            let ghost before = names@;
            names.push(n);
            assert(string_views(names@) =~= string_views(before).push(n@));
        }
        i = i + 1;
    }
    assert(types.subrange(0, i as int) == types);
    names
}

} // verus!
