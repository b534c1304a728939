//! The C backend: lowers an ordered protocol into C type declarations.
use vstd::prelude::*;

use crate::resolver::{
    cycle_message, has_cycle, has_unique_names, is_dependency_ordered, lemma_cycle_detection, on_cycle, resolution,
    resolves,
    sort_protocol_by_dependencies,
};
use crate::{diagnostic, parse_protocol_to_ast, parse_text};
use crate::ast::{
    definition_name, Definition, EnumerationDefinition, EnumerationField, Protocol, SpecAlias, SpecDefinition,
    SpecEnum, SpecEnumField, SpecStruct, SpecStructField, SpecType, SpecUnion, SpecUnionField,
    StructureDefinition, TypeDefinition, TypeIdentifier, UnionDefinition, UnionField,
};

verus! {

pub open spec fn digit_char(d: nat) -> char {
    if d == 0 {
        '0'
    } else if d == 1 {
        '1'
    } else if d == 2 {
        '2'
    } else if d == 3 {
        '3'
    } else if d == 4 {
        '4'
    } else if d == 5 {
        '5'
    } else if d == 6 {
        '6'
    } else if d == 7 {
        '7'
    } else if d == 8 {
        '8'
    } else {
        '9'
    }
}

/// The decimal spelling of `n`, without leading zeros.
pub open spec fn decimal(n: nat) -> Seq<char>
    decreases n,
{
    if n < 10 {
        seq![digit_char(n)]
    } else {
        decimal(n / 10) + seq![digit_char(n % 10)]
    }
}

/// The C spelling of a type reference; an array is spelled by its element
/// type, the dynamic one as a pointer to it.
pub open spec fn type_code(t: SpecType) -> Seq<char>
    decreases t,
{
    match t {
        SpecType::Integer8 => "int8_t"@,
        SpecType::Integer16 => "int16_t"@,
        SpecType::Integer32 => "int32_t"@,
        SpecType::Integer64 => "int64_t"@,
        SpecType::UnsignedInteger8 => "uint8_t"@,
        SpecType::UnsignedInteger16 => "uint16_t"@,
        SpecType::UnsignedInteger32 => "uint32_t"@,
        SpecType::UnsignedInteger64 => "uint64_t"@,
        SpecType::Float32 => "float"@,
        SpecType::Float64 => "double"@,
        SpecType::Bit => "bool"@,
        SpecType::Byte => "unsigned char"@,
        SpecType::UserDefined(n) => n,
        SpecType::StaticArray(inner, _) => type_code(*inner),
        SpecType::DynamicArray(inner) => type_code(*inner) + "*"@,
    }
}

/// One member line of a `struct` or `union`; a static array keeps its size.
pub open spec fn member_code(t: SpecType, name: Seq<char>) -> Seq<char> {
    match t {
        SpecType::StaticArray(inner, size) => "    "@ + type_code(*inner) + " "@ + name + "["@
            + decimal(size as nat) + "];\n"@,
        _ => "    "@ + type_code(t) + " "@ + name + ";\n"@,
    }
}

pub open spec fn suffixed(name: Seq<char>, v: int) -> Seq<char> {
    name + "_"@ + decimal(v as nat)
}

/// The `count` constants of a range from `start` on, each named by its value.
pub open spec fn range_constants(prefix: Seq<char>, start: int, count: nat) -> Seq<
    (Seq<char>, u64),
> {
    Seq::new(count, |k: int| (suffixed(prefix, start + k), (start + k) as u64))
}

/// The named constants that one enumeration field stands for.
pub open spec fn enum_field_constants(enum_name: Seq<char>, f: SpecEnumField) -> Seq<
    (Seq<char>, u64),
> {
    match f {
        SpecEnumField::SingleValue(n, v) => seq![(enum_name + "_"@ + n, v)],
        SpecEnumField::RangeOfValues(n, s, e) => if s == e {
            seq![(enum_name + "_"@ + n, s)]
        } else if s < e {
            range_constants(enum_name + "_"@ + n, s as int, (e - s + 1) as nat)
        } else {
            Seq::empty()
        },
    }
}

pub open spec fn constant_code(c: (Seq<char>, u64)) -> Seq<char> {
    "    "@ + c.0 + " = "@ + decimal(c.1 as nat) + ",\n"@
}

pub open spec fn constants_code(cs: Seq<(Seq<char>, u64)>) -> Seq<char>
    decreases cs.len(),
{
    if cs.len() == 0 {
        Seq::empty()
    } else {
        constants_code(cs.drop_last()) + constant_code(cs.last())
    }
}

pub open spec fn enum_fields_code(enum_name: Seq<char>, fs: Seq<SpecEnumField>) -> Seq<char>
    decreases fs.len(),
{
    if fs.len() == 0 {
        Seq::empty()
    } else {
        enum_fields_code(enum_name, fs.drop_last()) + constants_code(
            enum_field_constants(enum_name, fs.last()),
        )
    }
}

pub open spec fn enum_code(e: SpecEnum) -> Seq<char> {
    "typedef enum {\n"@ + enum_fields_code(e.name, e.fields) + "} "@ + e.name + ";\n\n"@
}

pub open spec fn struct_fields_code(fs: Seq<SpecStructField>) -> Seq<char>
    decreases fs.len(),
{
    if fs.len() == 0 {
        Seq::empty()
    } else {
        struct_fields_code(fs.drop_last()) + member_code(fs.last().typ, fs.last().name)
    }
}

pub open spec fn struct_code(s: SpecStruct) -> Seq<char> {
    "typedef struct {\n"@ + struct_fields_code(s.fields) + "} "@ + s.name + ";\n\n"@
}

/// The `count` members of a discriminator range from `start` on, each named
/// by its discriminator.
pub open spec fn range_members(name: Seq<char>, t: SpecType, start: int, count: nat) -> Seq<
    (Seq<char>, SpecType),
> {
    Seq::new(count, |k: int| (suffixed(name, start + k), t))
}

/// The members that one union field stands for.
pub open spec fn union_field_members(f: SpecUnionField) -> Seq<(Seq<char>, SpecType)> {
    match f {
        SpecUnionField::SingleValue(n, t, _) => seq![(n, t)],
        SpecUnionField::RangeOfValues(n, t, s, e) => if s == e {
            seq![(n, t)]
        } else if s < e {
            range_members(n, t, s as int, (e - s + 1) as nat)
        } else {
            Seq::empty()
        },
    }
}

pub open spec fn members_code(ms: Seq<(Seq<char>, SpecType)>) -> Seq<char>
    decreases ms.len(),
{
    if ms.len() == 0 {
        Seq::empty()
    } else {
        members_code(ms.drop_last()) + member_code(ms.last().1, ms.last().0)
    }
}

pub open spec fn union_fields_code(fs: Seq<SpecUnionField>) -> Seq<char>
    decreases fs.len(),
{
    if fs.len() == 0 {
        Seq::empty()
    } else {
        union_fields_code(fs.drop_last()) + members_code(union_field_members(fs.last()))
    }
}

pub open spec fn union_code(u: SpecUnion) -> Seq<char> {
    "typedef union {\n"@ + union_fields_code(u.fields) + "} "@ + u.name + ";\n\n"@
}

pub open spec fn alias_code(a: SpecAlias) -> Seq<char> {
    match a.typ {
        SpecType::StaticArray(inner, size) => "typedef "@ + type_code(*inner) + " "@ + a.new_type
            + "["@ + decimal(size as nat) + "];\n\n"@,
        SpecType::DynamicArray(inner) => "typedef "@ + type_code(*inner) + "* "@ + a.new_type
            + ";\n\n"@,
        _ => "typedef "@ + type_code(a.typ) + " "@ + a.new_type + ";\n\n"@,
    }
}

pub open spec fn definition_code(d: SpecDefinition) -> Seq<char> {
    match d {
        SpecDefinition::Enumeration(e) => enum_code(e),
        SpecDefinition::Structure(s) => struct_code(s),
        SpecDefinition::Union(u) => union_code(u),
        SpecDefinition::Type(a) => alias_code(a),
    }
}

pub open spec fn definitions_code(ds: Seq<SpecDefinition>) -> Seq<char>
    decreases ds.len(),
{
    if ds.len() == 0 {
        Seq::empty()
    } else {
        definitions_code(ds.drop_last()) + definition_code(ds.last())
    }
}

pub open spec fn header_code() -> Seq<char> {
    "#include <stdint.h>\n#include <stdbool.h>\n\n"@
}

/// The whole C header for a protocol: the includes, then one block per
/// declaration in order.
pub open spec fn c_code(ds: Seq<SpecDefinition>) -> Seq<char> {
    header_code() + definitions_code(ds)
}

fn digit_str(d: u64) -> (r: &'static str)
    requires
        d < 10,
    ensures
        r@ == seq![digit_char(d as nat)],
{
    proof {
        reveal_strlit("0");
        reveal_strlit("1");
        reveal_strlit("2");
        reveal_strlit("3");
        reveal_strlit("4");
        reveal_strlit("5");
        reveal_strlit("6");
        reveal_strlit("7");
        reveal_strlit("8");
        reveal_strlit("9");
    }
    if d == 0 {
        "0"
    } else if d == 1 {
        "1"
    } else if d == 2 {
        "2"
    } else if d == 3 {
        "3"
    } else if d == 4 {
        "4"
    } else if d == 5 {
        "5"
    } else if d == 6 {
        "6"
    } else if d == 7 {
        "7"
    } else if d == 8 {
        "8"
    } else {
        assert(seq!['9'] =~= "9"@);
        "9"
    }
}

/// Appends the decimal spelling of `n`.
pub fn append_decimal(code: &mut String, n: u64)
    ensures
        final(code)@ == old(code)@ + decimal(n as nat),
    decreases n,
{
    if n >= 10 {
        append_decimal(code, n / 10);
    }
    code.append(digit_str(n % 10));
    assert(code@ =~= old(code)@ + decimal(n as nat));
}

/// The C spelling of a type reference.
pub fn generate_type_identifier_code(type_identifier: &TypeIdentifier) -> (r: String)
    ensures
        r@ == type_code(type_identifier@),
    decreases type_identifier,
{
    match type_identifier {
        TypeIdentifier::Integer8 => String::from_str("int8_t"),
        TypeIdentifier::Integer16 => String::from_str("int16_t"),
        TypeIdentifier::Integer32 => String::from_str("int32_t"),
        TypeIdentifier::Integer64 => String::from_str("int64_t"),
        TypeIdentifier::UnsignedInteger8 => String::from_str("uint8_t"),
        TypeIdentifier::UnsignedInteger16 => String::from_str("uint16_t"),
        TypeIdentifier::UnsignedInteger32 => String::from_str("uint32_t"),
        TypeIdentifier::UnsignedInteger64 => String::from_str("uint64_t"),
        TypeIdentifier::Float32 => String::from_str("float"),
        TypeIdentifier::Float64 => String::from_str("double"),
        TypeIdentifier::Bit => String::from_str("bool"),
        TypeIdentifier::Byte => String::from_str("unsigned char"),
        TypeIdentifier::UserDefined(identifier) => identifier.name.clone(),
        TypeIdentifier::StaticArray { typ, .. } => generate_type_identifier_code(typ),
        TypeIdentifier::DynamicArray { typ } => {
            let mut code = generate_type_identifier_code(typ);
            code.append("*");
            code
        },
    }
}

/// Appends one member line of a `struct` or `union`.
fn append_member(code: &mut String, typ: &TypeIdentifier, name: &str)
    ensures
        final(code)@ == old(code)@ + member_code(typ@, name@),
{
    match typ {
        TypeIdentifier::StaticArray { typ: inner, size } => {
            code.append("    ");
            code.append(generate_type_identifier_code(inner).as_str());
            code.append(" ");
            code.append(name);
            code.append("[");
            append_decimal(code, *size);
            code.append("];\n");
        },
        _ => {
            code.append("    ");
            code.append(generate_type_identifier_code(typ).as_str());
            code.append(" ");
            code.append(name);
            code.append(";\n");
        },
    }
    assert(code@ =~= old(code)@ + member_code(typ@, name@));
}

/// Appends one enumeration constant line.
fn append_constant(code: &mut String, name: &str, value: u64)
    ensures
        final(code)@ == old(code)@ + constant_code((name@, value)),
{
    code.append("    ");
    code.append(name);
    code.append(" = ");
    append_decimal(code, value);
    code.append(",\n");
    assert(code@ =~= old(code)@ + constant_code((name@, value)));
}

/// `name` followed by an underscore and the decimal spelling of `value`.
fn suffixed_name(name: &str, value: u64) -> (r: String)
    ensures
        r@ == suffixed(name@, value as int),
{
    let mut r = String::from_str(name);
    r.append("_");
    append_decimal(&mut r, value);
    r
}

proof fn lemma_constants_single(c: (Seq<char>, u64))
    ensures
        constants_code(seq![c]) == constant_code(c),
{
    assert(seq![c].drop_last() =~= Seq::<(Seq<char>, u64)>::empty());
    assert(constants_code(Seq::<(Seq<char>, u64)>::empty()) == Seq::<char>::empty());
    assert(seq![c].last() == c);
    assert(constants_code(seq![c]) =~= constant_code(c));
}

proof fn lemma_members_single(m: (Seq<char>, SpecType))
    ensures
        members_code(seq![m]) == member_code(m.1, m.0),
{
    assert(seq![m].drop_last() =~= Seq::<(Seq<char>, SpecType)>::empty());
    assert(members_code(Seq::<(Seq<char>, SpecType)>::empty()) == Seq::<char>::empty());
    assert(seq![m].last() == m);
    assert(members_code(seq![m]) =~= member_code(m.1, m.0));
}

/// Appends one constant for each value of `start..=end`, in ascending order.
fn append_range_constants(code: &mut String, prefix: &str, start: u64, end: u64)
    requires
        start < end,
    ensures
        final(code)@ == old(code)@ + constants_code(
            range_constants(prefix@, start as int, (end - start + 1) as nat),
        ),
{
    let mut i: u64 = start;
    loop
        invariant_except_break
            start <= i <= end,
            code@ == old(code)@ + constants_code(
                range_constants(prefix@, start as int, (i - start) as nat),
            ),
        ensures
            code@ == old(code)@ + constants_code(
                range_constants(prefix@, start as int, (end - start + 1) as nat),
            ),
        decreases end - i,
    {
        let name = suffixed_name(prefix, i);
        append_constant(code, name.as_str(), i);
        proof {
            let count = (i - start) as nat;
            let next = range_constants(prefix@, start as int, count + 1);
            assert(next.drop_last() =~= range_constants(prefix@, start as int, count));
            assert(next.last() == (suffixed(prefix@, i as int), i));
            assert(code@ =~= old(code)@ + constants_code(next));
        }
        if i == end {
            break;
        }
        i = i + 1;
    }
}

/// Appends one member for each discriminator of `start..=end`, in ascending
/// order.
fn append_range_members(code: &mut String, typ: &TypeIdentifier, name: &str, start: u64, end: u64)
    requires
        start < end,
    ensures
        final(code)@ == old(code)@ + members_code(
            range_members(name@, typ@, start as int, (end - start + 1) as nat),
        ),
{
    let mut i: u64 = start;
    loop
        invariant_except_break
            start <= i <= end,
            code@ == old(code)@ + members_code(
                range_members(name@, typ@, start as int, (i - start) as nat),
            ),
        ensures
            code@ == old(code)@ + members_code(
                range_members(name@, typ@, start as int, (end - start + 1) as nat),
            ),
        decreases end - i,
    {
        let member = suffixed_name(name, i);
        append_member(code, typ, member.as_str());
        proof {
            let count = (i - start) as nat;
            let next = range_members(name@, typ@, start as int, count + 1);
            assert(next.drop_last() =~= range_members(name@, typ@, start as int, count));
            assert(next.last() == (suffixed(name@, i as int), typ@));
            assert(code@ =~= old(code)@ + members_code(next));
        }
        if i == end {
            break;
        }
        i = i + 1;
    }
}

/// The `typedef enum` block of an enumeration.
pub fn generate_enumeration_code(enumeration: &EnumerationDefinition) -> (r: String)
    ensures
        r@ == enum_code(enumeration@),
{
    let ghost e = enumeration@;
    let mut code = String::from_str("typedef enum {\n");
    let mut i: usize = 0;
    while i < enumeration.fields.len()
        invariant
            e == enumeration@,
            i <= e.fields.len(),
            code@ == "typedef enum {\n"@ + enum_fields_code(e.name, e.fields.subrange(0, i as int)),
        decreases enumeration.fields.len() - i,
    {
        let ghost before = code@;
        let mut prefix = enumeration.name.name.clone();
        prefix.append("_");
        match &enumeration.fields[i] {
            EnumerationField::SingleValue { name, value } => {
                prefix.append(name.name.as_str());
                append_constant(&mut code, prefix.as_str(), *value);
                proof {
                    lemma_constants_single((prefix@, *value));
                }
            },
            EnumerationField::RangeOfValues { name, start, end } => {
                prefix.append(name.name.as_str());
                if *start == *end {
                    append_constant(&mut code, prefix.as_str(), *start);
                    proof {
                        lemma_constants_single((prefix@, *start));
                    }
                } else if *start < *end {
                    append_range_constants(&mut code, prefix.as_str(), *start, *end);
                } else {
                    proof {
                        assert(constants_code(Seq::empty()) == Seq::<char>::empty());
                    }
                }
            },
        }
        proof {
            let fs = e.fields.subrange(0, i + 1);
            assert(fs.drop_last() =~= e.fields.subrange(0, i as int));
            assert(code@ =~= before + constants_code(enum_field_constants(e.name, fs.last())));
        }
        i = i + 1;
    }
    assert(e.fields.subrange(0, i as int) =~= e.fields);
    code.append("} ");
    code.append(enumeration.name.name.as_str());
    code.append(";\n\n");
    assert(code@ =~= enum_code(e));
    code
}

/// The `typedef` of a type alias; an array type makes the new name an array
/// or pointer type.
pub fn generate_type_definition_code(type_definition: &TypeDefinition) -> (r: String)
    ensures
        r@ == alias_code(type_definition@),
{
    let mut code = String::from_str("typedef ");
    match &type_definition.typ {
        TypeIdentifier::StaticArray { typ, size } => {
            code.append(generate_type_identifier_code(typ).as_str());
            code.append(" ");
            code.append(type_definition.new_type.name.as_str());
            code.append("[");
            append_decimal(&mut code, *size);
            code.append("];\n\n");
        },
        TypeIdentifier::DynamicArray { typ } => {
            code.append(generate_type_identifier_code(typ).as_str());
            code.append("* ");
            code.append(type_definition.new_type.name.as_str());
            code.append(";\n\n");
        },
        _ => {
            code.append(generate_type_identifier_code(&type_definition.typ).as_str());
            code.append(" ");
            code.append(type_definition.new_type.name.as_str());
            code.append(";\n\n");
        },
    }
    assert(code@ =~= alias_code(type_definition@));
    code
}

/// The `typedef struct` block of a structure, one member per field in order.
pub fn generate_structure_code(structure: &StructureDefinition) -> (r: String)
    ensures
        r@ == struct_code(structure@),
{
    let ghost st = structure@;
    let mut code = String::from_str("typedef struct {\n");
    let mut i: usize = 0;
    while i < structure.fields.len()
        invariant
            st == structure@,
            i <= st.fields.len(),
            code@ == "typedef struct {\n"@ + struct_fields_code(st.fields.subrange(0, i as int)),
        decreases structure.fields.len() - i,
    {
        let ghost before = code@;
        let field = &structure.fields[i];
        append_member(&mut code, &field.typ, field.name.name.as_str());
        proof {
            let fs = st.fields.subrange(0, i + 1);
            assert(fs.drop_last() =~= st.fields.subrange(0, i as int));
            assert(code@ =~= before + member_code(fs.last().typ, fs.last().name));
        }
        i = i + 1;
    }
    assert(st.fields.subrange(0, i as int) =~= st.fields);
    code.append("} ");
    code.append(structure.name.name.as_str());
    code.append(";\n\n");
    assert(code@ =~= struct_code(st));
    code
}

/// The `typedef union` block of a union; a discriminator range gives one
/// member per discriminator.
pub fn generate_union_code(union: &UnionDefinition) -> (r: String)
    ensures
        r@ == union_code(union@),
{
    let ghost u = union@;
    let mut code = String::from_str("typedef union {\n");
    let mut i: usize = 0;
    while i < union.fields.len()
        invariant
            u == union@,
            i <= u.fields.len(),
            code@ == "typedef union {\n"@ + union_fields_code(u.fields.subrange(0, i as int)),
        decreases union.fields.len() - i,
    {
        let ghost before = code@;
        match &union.fields[i] {
            UnionField::SingleValue { name, typ, .. } => {
                append_member(&mut code, typ, name.name.as_str());
                proof {
                    lemma_members_single((name@, typ@));
                }
            },
            UnionField::RangeOfValues { name, typ, start_discriminator, end_discriminator } => {
                if *start_discriminator == *end_discriminator {
                    append_member(&mut code, typ, name.name.as_str());
                    proof {
                        lemma_members_single((name@, typ@));
                    }
                } else if *start_discriminator < *end_discriminator {
                    append_range_members(
                        &mut code,
                        typ,
                        name.name.as_str(),
                        *start_discriminator,
                        *end_discriminator,
                    );
                } else {
                    proof {
                        assert(members_code(Seq::empty()) == Seq::<char>::empty());
                    }
                }
            },
        }
        proof {
            let fs = u.fields.subrange(0, i + 1);
            assert(fs.drop_last() =~= u.fields.subrange(0, i as int));
            assert(code@ =~= before + members_code(union_field_members(fs.last())));
        }
        i = i + 1;
    }
    assert(u.fields.subrange(0, i as int) =~= u.fields);
    code.append("} ");
    code.append(union.name.name.as_str());
    code.append(";\n\n");
    assert(code@ =~= union_code(u));
    code
}

/// The C header for a protocol: the include lines, then one block per
/// declaration, in the protocol's order.
pub fn generate_c_code(protocol: &Protocol) -> (r: String)
    ensures
        r@ == c_code(protocol@),
{
    let ghost ds = protocol@;
    let mut code = String::from_str("#include <stdint.h>\n#include <stdbool.h>\n\n");
    let mut i: usize = 0;
    while i < protocol.definitions.len()
        invariant
            ds == protocol@,
            i <= ds.len(),
            code@ == header_code() + definitions_code(ds.subrange(0, i as int)),
        decreases protocol.definitions.len() - i,
    {
        let ghost before = code@;
        let block = match &protocol.definitions[i] {
            Definition::Enumeration(enumeration) => generate_enumeration_code(enumeration),
            Definition::Structure(structure) => generate_structure_code(structure),
            Definition::Type(type_definition) => generate_type_definition_code(type_definition),
            Definition::Union(union) => generate_union_code(union),
        };
        code.append(block.as_str());
        proof {
            let prefix = ds.subrange(0, i + 1);
            assert(prefix.drop_last() =~= ds.subrange(0, i as int));
            assert(code@ =~= before + definition_code(prefix.last()));
        }
        i = i + 1;
    }
    assert(ds.subrange(0, i as int) =~= ds);
    code
}

/// An enumeration range field `start..end` with `start < end` stands for
/// `end - start + 1` constants, valued `start` to `end` in ascending order, each
/// named with its value as a suffix; with `start == end` it stands for one
/// constant, named without a suffix.
pub proof fn lemma_enum_range_expansion(enum_name: Seq<char>, name: Seq<char>, start: u64, end: u64)
    requires
        start <= end,
    ensures
        ({
            let cs = enum_field_constants(enum_name, SpecEnumField::RangeOfValues(name, start, end));
            &&& start < end ==> cs.len() == end - start + 1
            &&& start < end ==> forall|k: int|
                0 <= k < cs.len() ==> #[trigger] cs[k] == (
                    suffixed(enum_name + "_"@ + name, start + k),
                    (start + k) as u64,
                ) && cs[k].1 == start + k
            &&& forall|k1: int, k2: int|
                0 <= k1 < k2 < cs.len() ==> #[trigger] cs[k1].1 < #[trigger] cs[k2].1
            &&& start == end ==> cs == seq![(enum_name + "_"@ + name, start)]
        }),
{
}

/// A union range field `start..end => name: t` with `start < end` stands for
/// `end - start + 1` members of type `t`, one for each discriminator from
/// `start` to `end` in ascending order, named with it as a suffix; with
/// `start == end` it stands for one member, named without a suffix.
pub proof fn lemma_union_range_expansion(name: Seq<char>, t: SpecType, start: u64, end: u64)
    requires
        start <= end,
    ensures
        ({
            let ms = union_field_members(SpecUnionField::RangeOfValues(name, t, start, end));
            &&& start < end ==> ms.len() == end - start + 1
            &&& start < end ==> forall|k: int|
                0 <= k < ms.len() ==> #[trigger] ms[k] == (suffixed(name, start + k), t)
            &&& start == end ==> ms == seq![(name, t)]
        }),
{
}

pub open spec fn is_builtin(t: SpecType) -> bool {
    !(t is UserDefined || t is StaticArray || t is DynamicArray)
}

/// Each built-in scalar has one C spelling, and no two built-in scalars share
/// one: the spelling names the scalar.
#[verifier::spinoff_prover]
#[verifier::rlimit(50)]
pub proof fn lemma_builtin_spelling_injective(a: SpecType, b: SpecType)
    requires
        is_builtin(a),
        is_builtin(b),
        type_code(a) == type_code(b),
    ensures
        a == b,
{
    reveal_strlit("int8_t");
    reveal_strlit("int16_t");
    reveal_strlit("int32_t");
    reveal_strlit("int64_t");
    reveal_strlit("uint8_t");
    reveal_strlit("uint16_t");
    reveal_strlit("uint32_t");
    reveal_strlit("uint64_t");
    reveal_strlit("float");
    reveal_strlit("double");
    reveal_strlit("bool");
    reveal_strlit("unsigned char");
    let ca = type_code(a);
    let cb = type_code(b);
    assert(ca.len() == cb.len());
    if ca.len() > 0 {
        assert(ca[0] == cb[0]);
    }
    if ca.len() > 1 {
        assert(ca[1] == cb[1]);
    }
    if ca.len() > 4 {
        assert(ca[3] == cb[3]);
        assert(ca[4] == cb[4]);
    }
}

/// What compiling the text `s` may give: the syntax error; or the message
/// naming a declaration on a reference cycle, which comes exactly when there
/// is one if no two declarations share a name; or the C header of a dependency order of the declarations, which
/// is their written order when that is one already.
pub open spec fn compiles(s: Seq<char>, r: Result<Seq<char>, Seq<char>>) -> bool {
    match parse_text(s) {
        Err((pos, es)) => r == Err::<Seq<char>, Seq<char>>(diagnostic(s, pos, es)),
        Ok(ds) => {
            &&& (has_unique_names(ds) ==> (r is Ok <==> !has_cycle(ds)))
            &&& (is_dependency_ordered(ds) ==> r == Ok::<Seq<char>, Seq<char>>(c_code(ds)))
            &&& match r {
                Ok(code) => exists|out: Seq<SpecDefinition>|
                    resolves(ds, Ok(out)) && code == c_code(out),
                Err(msg) => exists|c: int|
                    0 <= c < ds.len() && on_cycle(ds, c) && msg == cycle_message(
                        definition_name(ds[c]),
                    ),
            }
        },
    }
}

/// The outcome of compiling the text `s`: its syntax error, or the outcome
/// of resolving its declarations, with the C header of the resolved order.
pub open spec fn compile_text(s: Seq<char>) -> Result<Seq<char>, Seq<char>> {
    match parse_text(s) {
        Err((pos, es)) => Err(diagnostic(s, pos, es)),
        Ok(ds) => match resolution(ds) {
            Ok(out) => Ok(c_code(out)),
            Err(msg) => Err(msg),
        },
    }
}

pub open spec fn text_result(r: Result<String, String>) -> Result<Seq<char>, Seq<char>> {
    match r {
        Ok(code) => Ok(code@),
        Err(msg) => Err(msg@),
    }
}

/// Compiles protocol text to a C header: parses it, orders the declarations
/// by dependency, and generates the code.
pub fn generate_c_code_from_string(input: &str) -> (r: Result<String, String>)
    requires
        input@.len() < usize::MAX,
    ensures
        text_result(r) == compile_text(input@),
        compiles(input@, text_result(r)),
{
    let protocol = match parse_protocol_to_ast(input) {
        Ok(p) => p,
        Err(e) => {
            return Err(e);
        },
    };
    let ghost ds = protocol@;
    let sorted = sort_protocol_by_dependencies(&protocol);
    proof {
        if has_unique_names(ds) {
            lemma_cycle_detection(ds, crate::resolver::result_view(sorted));
        }
    }
    match sorted {
        Ok(out) => {
            let code = generate_c_code(&out);
            assert(parse_text(input@) == Ok::<Seq<SpecDefinition>, (int, Seq<crate::parser::Expected>)>(ds));
            assert(resolves(ds, Ok(out@)));
            assert(is_dependency_ordered(ds) ==> out@ == ds);
            Ok(code)
        },
        Err(e) => Err(e),
    }
}

} // verus!
