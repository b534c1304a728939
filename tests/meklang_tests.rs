use meksmith::meklang::{
    Attribute, BuiltinType, Definition, Enumeration, EnumerationField, Identifier, Module,
    Structure, StructureField, Type, Union, UnionField,
};
use meksmith::meklang_parser::{
    any_type, attribute, attributes, builtin_type, definition, enumeration, enumeration_field,
    identifier, module, number, structure, structure_field, union, union_field,
};

#[test]
fn base_test_identifier() {
    assert_eq!(identifier("blah").unwrap(), Identifier::new("blah"));
}

#[test]
fn meklang_test_number() {
    for (input, expected) in [("123", 123), ("0x1A", 0x1A), ("0b101", 0b101)] {
        assert_eq!(number(input).unwrap(), expected);
    }
}

#[test]
fn meklang_test_builtin_type() {
    for (input, expected) in [
        ("i8", BuiltinType::SignedInteger8),
        ("i16", BuiltinType::SignedInteger16),
        ("i32", BuiltinType::SignedInteger32),
        ("i64", BuiltinType::SignedInteger64),
        ("u8", BuiltinType::UnsignedInteger8),
        ("u16", BuiltinType::UnsignedInteger16),
        ("u32", BuiltinType::UnsignedInteger32),
        ("u64", BuiltinType::UnsignedInteger64),
        ("f32", BuiltinType::Float32),
        ("f64", BuiltinType::Float64),
        ("bit", BuiltinType::Bit),
        ("bool", BuiltinType::Boolean),
        ("byte", BuiltinType::Byte),
    ] {
        assert_eq!(builtin_type(input).unwrap(), expected);
        assert_eq!(any_type(input).unwrap(), Type::Builtin(expected));
    }
}

#[test]
fn meklang_test_any_type() {
    assert_eq!(any_type("MyType").unwrap(), Type::UserDefined(Identifier::new("MyType")));
    assert_eq!(any_type("_type").unwrap(), Type::UserDefined(Identifier::new("_type")));
    assert_eq!(any_type("u8x").unwrap(), Type::UserDefined(Identifier::new("u8x")));
    assert_eq!(builtin_type("MyType"), None);
}

#[test]
fn meklang_test_attribute() {
    assert_eq!(attribute("bits = 3").unwrap(), Attribute::Bits(3));
    assert_eq!(attribute("bytes=0x10").unwrap(), Attribute::Bytes(16));
    assert_eq!(
        attribute("discriminator = kind").unwrap(),
        Attribute::Discriminator(Identifier::new("kind"))
    );
    assert_eq!(attribute("static_array = 4").unwrap(), Attribute::StaticArray(4));
    assert_eq!(
        attribute("dynamic_array = len").unwrap(),
        Attribute::DynamicArray(Identifier::new("len"))
    );
    assert_eq!(attribute("colour = 4"), None);
}

#[test]
fn meklang_test_attributes() {
    assert_eq!(attributes("[]").unwrap(), vec![]);
    assert_eq!(
        attributes("[bits = 2, static_array = 3]").unwrap(),
        vec![Attribute::Bits(2), Attribute::StaticArray(3)]
    );
    assert_eq!(attributes("[bits = 2,]"), None);
}

#[test]
fn definitions_test_definition_with_enumeration() {
    let result = definition("enum MyEnum { x = 0 }").unwrap();
    assert!(matches!(result, Definition::Enumeration(_)));
}

#[test]
fn definitions_test_definition_with_structure() {
    let result = definition("struct MyStruct { x: typeeeee }").unwrap();
    assert!(matches!(result, Definition::Structure(_)));
}

#[test]
fn definitions_test_definition_with_union() {
    let result = definition("union MyUnion { 0 => x: type }").unwrap();
    assert!(matches!(result, Definition::Union(_)));
}

#[test]
fn enumerations_test_enumeration_field_single_value() {
    let expected = EnumerationField::SingleValue { name: Identifier::new("foo"), value: 42 };
    assert_eq!(enumeration_field("foo = 42").unwrap(), expected);
}

#[test]
fn enumerations_test_enumeration_field_range_of_values() {
    let expected = EnumerationField::RangeOfValues { name: Identifier::new("bar"), from: 10, to: 20 };
    assert_eq!(enumeration_field("bar = 10..20").unwrap(), expected);
}

fn my_enum(attributes: Vec<Attribute>) -> Enumeration {
    Enumeration {
        name: Identifier::new("MyEnum"),
        fields: vec![
            EnumerationField::SingleValue { name: Identifier::new("foo"), value: 0 },
            EnumerationField::SingleValue { name: Identifier::new("bar"), value: 1 },
            EnumerationField::RangeOfValues { name: Identifier::new("baz"), from: 2, to: 3 },
        ],
        attributes,
    }
}

#[test]
fn enumerations_test_enumeration() {
    let input = "enum MyEnum { foo = 0, bar = 1, baz = 2..3 }";
    assert_eq!(enumeration(input).unwrap(), my_enum(vec![]));
}

#[test]
fn test_enumeration_with_bits_attribute() {
    let input = "[bits = 2] enum MyEnum { foo = 0, bar = 1, baz = 2..3 }";
    assert_eq!(enumeration(input).unwrap(), my_enum(vec![Attribute::Bits(2)]));
}

#[test]
fn structures_test_structure_field() {
    let expected = StructureField {
        name: Identifier::new("name"),
        typ: Type::UserDefined(Identifier::new("my_type_t")),
        attributes: vec![],
    };
    assert_eq!(structure_field("name: my_type_t").unwrap(), expected);
}

#[test]
fn test_structure_field_with_attributes() {
    let expected = StructureField {
        name: Identifier::new("name"),
        typ: Type::UserDefined(Identifier::new("my_type_t")),
        attributes: vec![Attribute::StaticArray(10)],
    };
    assert_eq!(structure_field("[static_array = 10] name: my_type_t").unwrap(), expected);
}

#[test]
fn structures_test_structure() {
    let expected = Structure {
        name: Identifier::new("MyStruct"),
        fields: vec![StructureField {
            name: Identifier::new("name"),
            typ: Type::UserDefined(Identifier::new("my_type_t")),
            attributes: vec![],
        }],
    };
    assert_eq!(structure("struct MyStruct { name: my_type_t }").unwrap(), expected);
}

#[test]
fn test_structure_with_many_fields() {
    let input =
        "struct MyStruct { name: my_type_t, age: u32, [bytes = 16, static_array = 3] hobby: char }";
    let expected = Structure {
        name: Identifier::new("MyStruct"),
        fields: vec![
            StructureField {
                name: Identifier::new("name"),
                typ: Type::UserDefined(Identifier::new("my_type_t")),
                attributes: vec![],
            },
            StructureField {
                name: Identifier::new("age"),
                typ: Type::Builtin(BuiltinType::UnsignedInteger32),
                attributes: vec![],
            },
            StructureField {
                name: Identifier::new("hobby"),
                typ: Type::UserDefined(Identifier::new("char")),
                attributes: vec![Attribute::Bytes(16), Attribute::StaticArray(3)],
            },
        ],
    };
    assert_eq!(structure(input).unwrap(), expected);
}

#[test]
fn unions_test_union_field_single_value() {
    let expected = UnionField::SingleValue {
        name: Identifier::new("field_name"),
        typ: Type::UserDefined(Identifier::new("FieldType")),
        discriminator: 15,
        attributes: vec![],
    };
    assert_eq!(union_field("15 => field_name: FieldType").unwrap(), expected);
}

#[test]
fn test_union_field_single_value_with_attributes() {
    let expected = UnionField::SingleValue {
        name: Identifier::new("field_name"),
        typ: Type::UserDefined(Identifier::new("FieldType")),
        discriminator: 15,
        attributes: vec![Attribute::Bytes(6)],
    };
    assert_eq!(union_field("[bytes=6] 15 => field_name: FieldType").unwrap(), expected);
}

#[test]
fn unions_test_union_field_range_of_values() {
    let expected = UnionField::RangeOfValues {
        name: Identifier::new("field_name"),
        typ: Type::UserDefined(Identifier::new("FieldType")),
        discriminator_from: 15,
        discriminator_to: 20,
        attributes: vec![],
    };
    assert_eq!(union_field("15..20 => field_name: FieldType").unwrap(), expected);
}

#[test]
fn test_union_field_range_of_values_with_attributes() {
    let expected = UnionField::RangeOfValues {
        name: Identifier::new("field_name"),
        typ: Type::UserDefined(Identifier::new("FieldType")),
        discriminator_from: 15,
        discriminator_to: 16,
        attributes: vec![Attribute::Bytes(6)],
    };
    assert_eq!(union_field("[bytes=6] 15..16 => field_name: FieldType").unwrap(), expected);
}

#[test]
fn unions_test_union() {
    let input = "union MyUnion { 0 => x: X, [bits=3] 1..2 => y: Y, 3 => z: Z }";
    let expected = Union {
        name: Identifier::new("MyUnion"),
        fields: vec![
            UnionField::SingleValue {
                name: Identifier::new("x"),
                typ: Type::UserDefined(Identifier::new("X")),
                discriminator: 0,
                attributes: vec![],
            },
            UnionField::RangeOfValues {
                name: Identifier::new("y"),
                typ: Type::UserDefined(Identifier::new("Y")),
                discriminator_from: 1,
                discriminator_to: 2,
                attributes: vec![Attribute::Bits(3)],
            },
            UnionField::SingleValue {
                name: Identifier::new("z"),
                typ: Type::UserDefined(Identifier::new("Z")),
                discriminator: 3,
                attributes: vec![],
            },
        ],
    };
    assert_eq!(union(input).unwrap(), expected);
}

#[test]
fn test_module() {
    let input = r#"
            [bits=2]
            enum Enum1 { x = 0b00, y = 0b01..0b11 }

            struct Struct1 {
                [static_array=4]
                f1: Enum1,
                f2: u32
            }

            enum Enum2 { z = 5 }

            union Union1 {
                [bits=49]
                0 => u1: u64,
                1 => u2: Enum2,
                2 => u3: Struct1,
            }
        "#;
    let expected = Module {
        definitions: vec![
            Definition::Enumeration(Enumeration {
                name: Identifier::new("Enum1"),
                fields: vec![
                    EnumerationField::SingleValue { name: Identifier::new("x"), value: 0b00 },
                    EnumerationField::RangeOfValues { name: Identifier::new("y"), from: 0b01, to: 0b11 },
                ],
                attributes: vec![Attribute::Bits(2)],
            }),
            Definition::Structure(Structure {
                name: Identifier::new("Struct1"),
                fields: vec![
                    StructureField {
                        name: Identifier::new("f1"),
                        typ: Type::UserDefined(Identifier::new("Enum1")),
                        attributes: vec![Attribute::StaticArray(4)],
                    },
                    StructureField {
                        name: Identifier::new("f2"),
                        typ: Type::Builtin(BuiltinType::UnsignedInteger32),
                        attributes: vec![],
                    },
                ],
            }),
            Definition::Enumeration(Enumeration {
                name: Identifier::new("Enum2"),
                fields: vec![EnumerationField::SingleValue { name: Identifier::new("z"), value: 5 }],
                attributes: vec![],
            }),
            Definition::Union(Union {
                name: Identifier::new("Union1"),
                fields: vec![
                    UnionField::SingleValue {
                        name: Identifier::new("u1"),
                        typ: Type::Builtin(BuiltinType::UnsignedInteger64),
                        discriminator: 0,
                        attributes: vec![Attribute::Bits(49)],
                    },
                    UnionField::SingleValue {
                        name: Identifier::new("u2"),
                        typ: Type::UserDefined(Identifier::new("Enum2")),
                        discriminator: 1,
                        attributes: vec![],
                    },
                    UnionField::SingleValue {
                        name: Identifier::new("u3"),
                        typ: Type::UserDefined(Identifier::new("Struct1")),
                        discriminator: 2,
                        attributes: vec![],
                    },
                ],
            }),
        ],
    };
    // Fields are separated by commas, so the comma after the last union
    // field is not accepted; without it the module parses.
    assert_eq!(module(input), None);
    assert_eq!(module(&input.replace("Struct1,\n", "Struct1\n")), Some(expected));
}

#[test]
fn meklang_empty_bodies_and_texts_parse() {
    assert_eq!(structure("struct S {}").unwrap(), Structure { name: Identifier::new("S"), fields: vec![] });
    assert_eq!(module("").unwrap(), Module { definitions: vec![] });
    assert_eq!(module("struct S { x: u8 } trailing"), None);
}
