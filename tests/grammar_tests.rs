use meksmith::ast::{Attribute, EnumerationField, Identifier, StructureField, TypeIdentifier, UnionField};
use meksmith::parser::{
    attribute, attribute_tail, attributes, enumeration_field, range, structure_field,
    type_identifier, union_field,
};

fn int32_array(size: u64) -> TypeIdentifier {
    TypeIdentifier::StaticArray { typ: Box::new(TypeIdentifier::Integer32), size }
}

fn uint64_list() -> TypeIdentifier {
    TypeIdentifier::DynamicArray { typ: Box::new(TypeIdentifier::UnsignedInteger64) }
}

#[test]
fn test_builtin_type() {
    for (type_str, expected_type) in [
        ("int8", TypeIdentifier::Integer8),
        ("int16", TypeIdentifier::Integer16),
        ("int32", TypeIdentifier::Integer32),
        ("int64", TypeIdentifier::Integer64),
        ("uint8", TypeIdentifier::UnsignedInteger8),
        ("uint16", TypeIdentifier::UnsignedInteger16),
        ("uint32", TypeIdentifier::UnsignedInteger32),
        ("uint64", TypeIdentifier::UnsignedInteger64),
        ("float32", TypeIdentifier::Float32),
        ("float64", TypeIdentifier::Float64),
        ("bit", TypeIdentifier::Bit),
        ("byte", TypeIdentifier::Byte),
    ] {
        assert_eq!(type_identifier(type_str).unwrap(), expected_type);
    }
}

#[test]
fn test_user_defined_type() {
    assert_eq!(
        type_identifier("MyCustomType").unwrap(),
        TypeIdentifier::UserDefined(Identifier::new("MyCustomType"))
    );
}

#[test]
fn test_static_array_type_with_builtin_type() {
    assert_eq!(type_identifier("int32[5]").unwrap(), int32_array(5));
}

#[test]
fn test_static_array_type_with_custom_type() {
    assert_eq!(
        type_identifier("MyType[10]").unwrap(),
        TypeIdentifier::StaticArray {
            typ: Box::new(TypeIdentifier::UserDefined(Identifier::new("MyType"))),
            size: 10,
        }
    );
}

#[test]
fn test_static_array_type_with_wrong_size() {
    assert!(type_identifier("int32[invalid]").is_none());
}

#[test]
fn test_static_array_type_with_negative_size() {
    assert!(type_identifier("int32[-5]").is_none());
}

#[test]
fn test_dynamic_array_type_with_builtin_type() {
    assert_eq!(type_identifier("uint64[]").unwrap(), uint64_list());
}

#[test]
fn test_dynamic_array_type_with_user_defined_type() {
    assert_eq!(
        type_identifier("MyType[]").unwrap(),
        TypeIdentifier::DynamicArray {
            typ: Box::new(TypeIdentifier::UserDefined(Identifier::new("MyType"))),
        }
    );
}

#[test]
fn test_type_identifier_with_builtin_type() {
    assert_eq!(type_identifier("int32").unwrap(), TypeIdentifier::Integer32);
}

#[test]
fn test_type_identifier_with_user_defined_type() {
    assert_eq!(
        type_identifier("MyCustomType").unwrap(),
        TypeIdentifier::UserDefined(Identifier::new("MyCustomType"))
    );
}

#[test]
fn test_type_identifier_with_static_array() {
    assert_eq!(type_identifier("int32[10]").unwrap(), int32_array(10));
}

#[test]
fn test_type_identifier_with_dynamic_array() {
    assert_eq!(type_identifier("uint64[]").unwrap(), uint64_list());
}

#[test]
fn parser_test_enumeration_field_single_value() {
    assert_eq!(
        enumeration_field("myField = 42;").unwrap(),
        EnumerationField::SingleValue { name: Identifier::new("myField"), value: 42 }
    );
}

#[test]
fn test_enumeration_field_signle_value_invalid_syntax() {
    assert!(enumeration_field("myField 42;").is_none());
}

#[test]
fn test_range() {
    assert_eq!(range("10..20").unwrap(), (10, 20));
}

#[test]
fn test_range_with_hexadecimal_numbers() {
    assert_eq!(range("0xA..0x14").unwrap(), (0xA, 0x14));
}

#[test]
fn test_range_with_binary_numbers() {
    assert_eq!(range("0b1010..0b1110").unwrap(), (0b1010, 0b1110));
}

#[test]
fn test_range_with_mixed_numbers() {
    assert_eq!(range("10..0x14").unwrap(), (10, 0x14));
}

#[test]
fn test_range_with_too_many_dots() {
    assert!(range("10...20").is_none());
}

#[test]
fn test_range_without_start() {
    assert!(range("..20").is_none());
}

#[test]
fn test_range_without_end() {
    assert!(range("10..").is_none());
}

#[test]
fn test_range_with_spaces() {
    assert_eq!(range(" 10 .. 20 ").unwrap(), (10, 20));
}

#[test]
fn parser_test_enumeration_field_range_of_values() {
    assert_eq!(
        enumeration_field("myRange = 10..20;").unwrap(),
        EnumerationField::RangeOfValues { name: Identifier::new("myRange"), start: 10, end: 20 }
    );
}

#[test]
fn test_enumeration_field_range_of_values_invalid_syntax() {
    assert!(enumeration_field("myRange 10..20;").is_none());
}

#[test]
fn test_enumeration_field_range_of_values_too_much_dots() {
    assert!(enumeration_field("myRange = 10...20;").is_none());
}

#[test]
fn test_enumeration_field_range_of_values_without_start() {
    assert!(enumeration_field("myRange = ..20;").is_none());
}

#[test]
fn test_enumeration_field_range_of_values_without_end() {
    assert!(enumeration_field("myRange = 10..;").is_none());
}

#[test]
fn test_enumeration_field_uses_proper_choice() {
    assert_eq!(
        enumeration_field("myField = 42;").unwrap(),
        EnumerationField::SingleValue { name: Identifier::new("myField"), value: 42 }
    );
    assert_eq!(
        enumeration_field("myRange = 10..20;").unwrap(),
        EnumerationField::RangeOfValues { name: Identifier::new("myRange"), start: 10, end: 20 }
    );
}

#[test]
fn test_attribute_discriminated_by() {
    assert_eq!(
        attribute("discriminated_by = discrimnatorField").unwrap(),
        Attribute::DiscriminatedBy { field: Identifier::new("discrimnatorField") }
    );
}

#[test]
fn test_attribute_invalid_syntax() {
    assert!(attribute("myAttribute myValue").is_none());
}

#[test]
fn test_attribute_without_spaces() {
    assert_eq!(
        attribute("discriminated_by=discrimnatorField").unwrap(),
        Attribute::DiscriminatedBy { field: Identifier::new("discrimnatorField") }
    );
}

#[test]
fn test_attribute_tail() {
    assert_eq!(attribute_tail(", bits = 10").unwrap(), Attribute::BitsSize { size: 10 });
}

#[test]
fn test_attributes() {
    let input = "[discriminated_by = discriminatorField, bits = 10]";
    assert_eq!(
        attributes(input).unwrap(),
        vec![
            Attribute::DiscriminatedBy { field: Identifier::new("discriminatorField") },
            Attribute::BitsSize { size: 10 },
        ]
    );
}

fn field(typ: TypeIdentifier) -> StructureField {
    StructureField { attributes: vec![], name: Identifier::new("myField"), typ }
}

#[test]
fn parser_test_structure_field() {
    assert_eq!(structure_field("myField: int32;").unwrap(), field(TypeIdentifier::Integer32));
}

#[test]
fn test_structure_field_with_user_defined_type() {
    assert_eq!(
        structure_field("myField: MyCustomType;").unwrap(),
        field(TypeIdentifier::UserDefined(Identifier::new("MyCustomType")))
    );
}

#[test]
fn test_structure_with_static_array() {
    assert_eq!(structure_field("myField: int32[10];").unwrap(), field(int32_array(10)));
}

#[test]
fn test_structure_with_dynamic_array() {
    assert_eq!(structure_field("myField: uint64[];").unwrap(), field(uint64_list()));
}

fn single(typ: TypeIdentifier, discriminator: u64) -> UnionField {
    UnionField::SingleValue { name: Identifier::new("myField"), typ, discriminator }
}

#[test]
fn parser_test_union_field_single_value() {
    assert_eq!(union_field("1 => myField: int32;").unwrap(), single(TypeIdentifier::Integer32, 1));
}

#[test]
fn test_union_field_single_value_with_user_defined_type() {
    assert_eq!(
        union_field("2 => myField: MyCustomType;").unwrap(),
        single(TypeIdentifier::UserDefined(Identifier::new("MyCustomType")), 2)
    );
}

#[test]
fn test_union_field_single_value_with_static_array() {
    assert_eq!(union_field("3 => myField: int32[10];").unwrap(), single(int32_array(10), 3));
}

#[test]
fn test_union_field_single_value_with_dynamic_array() {
    assert_eq!(union_field("4 => myField: uint64[];").unwrap(), single(uint64_list(), 4));
}

#[test]
fn parser_test_union_field_range_of_values() {
    assert_eq!(
        union_field("1..3 => myField: int32;").unwrap(),
        UnionField::RangeOfValues {
            name: Identifier::new("myField"),
            typ: TypeIdentifier::Integer32,
            start_discriminator: 1,
            end_discriminator: 3,
        }
    );
}

#[test]
fn test_union_field() {
    assert_eq!(union_field("5 => myField: int32;").unwrap(), single(TypeIdentifier::Integer32, 5));
    assert_eq!(
        union_field("6..8 => myArray: uint64[];").unwrap(),
        UnionField::RangeOfValues {
            name: Identifier::new("myArray"),
            typ: uint64_list(),
            start_discriminator: 6,
            end_discriminator: 8,
        }
    );
}
