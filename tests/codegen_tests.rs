use meksmith::ast::{
    EnumerationDefinition, EnumerationField, Identifier, Protocol, TypeDefinition, TypeIdentifier,
    UnionDefinition, UnionField,
};
use meksmith::smith_c::{
    generate_c_code, generate_c_code_from_string, generate_enumeration_code,
    generate_type_definition_code, generate_type_identifier_code, generate_union_code,
};

const INPUT_FILE_CONTENT: &str = r#"
using BuiltInType = int32;
using UserDefinedType = MyEnum;
using StaticArrayType = uint32[10];
using DynamicArrayType = byte[];

enum MyEnum {
    Value = 1;
    Range = 2..5;
    RangeOneValue = 6..6;
};

using my_enum_alias_t = MyEnum;

struct MyStruct {
    field1: int32;
    field2: MyEnum;
    field3: uint32[10];
    field4: byte[];
    field5: my_enum_alias_t;
    field6: MyEnum[2];
    builtin1: int8;
    builtin2: int16;
    builtin3: int32;
    builtin4: int64;
    builtin5: uint8;
    builtin6: uint16;
    builtin7: uint32;
    builtin8: uint64;
    builtin9: float32;
    builtin10: float64;
    builtin11: bit;
    builtin12: byte;
};

union MyUnion {
    0 => field1: bit;
    1 => field2: MyEnum;
    2 => field3: uint64[10];
    3 => field4: MyStruct;
    4..6 => reserved: uint16;
    7..8 => static_array: uint16[10];
};
"#;

const EXPECTED_C_OUTPUT: &str = r#"#include <stdint.h>
#include <stdbool.h>

typedef int32_t BuiltInType;

typedef enum {
    MyEnum_Value = 1,
    MyEnum_Range_2 = 2,
    MyEnum_Range_3 = 3,
    MyEnum_Range_4 = 4,
    MyEnum_Range_5 = 5,
    MyEnum_RangeOneValue = 6,
} MyEnum;

typedef MyEnum UserDefinedType;

typedef uint32_t StaticArrayType[10];

typedef unsigned char* DynamicArrayType;

typedef MyEnum my_enum_alias_t;

typedef struct {
    int32_t field1;
    MyEnum field2;
    uint32_t field3[10];
    unsigned char* field4;
    my_enum_alias_t field5;
    MyEnum field6[2];
    int8_t builtin1;
    int16_t builtin2;
    int32_t builtin3;
    int64_t builtin4;
    uint8_t builtin5;
    uint16_t builtin6;
    uint32_t builtin7;
    uint64_t builtin8;
    float builtin9;
    double builtin10;
    bool builtin11;
    unsigned char builtin12;
} MyStruct;

typedef union {
    bool field1;
    MyEnum field2;
    uint64_t field3[10];
    MyStruct field4;
    uint16_t reserved_4;
    uint16_t reserved_5;
    uint16_t reserved_6;
    uint16_t static_array_7[10];
    uint16_t static_array_8[10];
} MyUnion;

"#;

#[test]
fn test_generate_c_code_from_string() {
    let input = INPUT_FILE_CONTENT;
    let output = generate_c_code_from_string(input).unwrap();
    assert_eq!(output, EXPECTED_C_OUTPUT);
}

#[test]
fn enumeration_ranges_expand_to_one_constant_per_value() {
    let output = generate_c_code_from_string("enum E { a = 1; b = 2..4; };").unwrap();
    assert_eq!(
        output,
        "#include <stdint.h>\n#include <stdbool.h>\n\ntypedef enum {\n    E_a = 1,\n    E_b_2 = 2,\n    E_b_3 = 3,\n    E_b_4 = 4,\n} E;\n\n"
    );
}

#[test]
fn a_static_array_alias_becomes_an_array_type() {
    let output = generate_c_code_from_string("using T = uint32[10];").unwrap();
    assert!(output.ends_with("typedef uint32_t T[10];\n\n"));
}

#[test]
fn a_circular_protocol_does_not_compile() {
    let err = generate_c_code_from_string("struct A { f: B; }; struct B { f: A; };").unwrap_err();
    assert_eq!(err, "Circular dependency detected for A");
}

#[test]
fn a_union_range_gives_one_member_per_discriminator() {
    let output = generate_c_code_from_string("union U { 3..4 => x: uint16; };").unwrap();
    assert!(output.ends_with("typedef union {\n    uint16_t x_3;\n    uint16_t x_4;\n} U;\n\n"));
}

#[test]
fn a_malformed_protocol_does_not_compile() {
    let err = generate_c_code_from_string("using T = int32[10;").unwrap_err();
    assert_eq!(
        err,
        "Parsing failed. Errors: found ';' expected digit, or right bracket (]) in 1:19"
    );
}

#[test]
fn range_expansion_counts_and_orders_values() {
    let e = EnumerationDefinition {
        name: Identifier::new("Level"),
        fields: vec![EnumerationField::RangeOfValues {
            name: Identifier::new("n"),
            start: 8,
            end: 12,
        }],
    };
    let code = generate_enumeration_code(&e);
    let lines: Vec<&str> = code.lines().filter(|l| l.contains(" = ")).collect();
    assert_eq!(lines.len(), 12 - 8 + 1);
    for (k, line) in lines.iter().enumerate() {
        let v = 8 + k;
        assert_eq!(*line, format!("    Level_n_{v} = {v},"));
    }
}

#[test]
fn a_single_value_range_has_no_suffix() {
    let e = EnumerationDefinition {
        name: Identifier::new("E"),
        fields: vec![EnumerationField::RangeOfValues {
            name: Identifier::new("only"),
            start: 7,
            end: 7,
        }],
    };
    assert_eq!(generate_enumeration_code(&e), "typedef enum {\n    E_only = 7,\n} E;\n\n");
    let u = UnionDefinition {
        name: Identifier::new("U"),
        fields: vec![UnionField::RangeOfValues {
            name: Identifier::new("only"),
            typ: TypeIdentifier::Bit,
            start_discriminator: 7,
            end_discriminator: 7,
        }],
    };
    assert_eq!(generate_union_code(&u), "typedef union {\n    bool only;\n} U;\n\n");
}

#[test]
fn an_inverted_range_expands_to_nothing() {
    let e = EnumerationDefinition {
        name: Identifier::new("E"),
        fields: vec![EnumerationField::RangeOfValues {
            name: Identifier::new("r"),
            start: 5,
            end: 2,
        }],
    };
    assert_eq!(generate_enumeration_code(&e), "typedef enum {\n} E;\n\n");
}

#[test]
fn range_expansion_reaches_the_largest_value() {
    let e = EnumerationDefinition {
        name: Identifier::new("E"),
        fields: vec![EnumerationField::RangeOfValues {
            name: Identifier::new("top"),
            start: u64::MAX - 1,
            end: u64::MAX,
        }],
    };
    assert_eq!(
        generate_enumeration_code(&e),
        "typedef enum {\n    E_top_18446744073709551614 = 18446744073709551614,\n    E_top_18446744073709551615 = 18446744073709551615,\n} E;\n\n"
    );
}

#[test]
fn each_builtin_has_its_own_spelling() {
    let kinds = [
        (TypeIdentifier::Integer8, "int8_t"),
        (TypeIdentifier::Integer16, "int16_t"),
        (TypeIdentifier::Integer32, "int32_t"),
        (TypeIdentifier::Integer64, "int64_t"),
        (TypeIdentifier::UnsignedInteger8, "uint8_t"),
        (TypeIdentifier::UnsignedInteger16, "uint16_t"),
        (TypeIdentifier::UnsignedInteger32, "uint32_t"),
        (TypeIdentifier::UnsignedInteger64, "uint64_t"),
        (TypeIdentifier::Float32, "float"),
        (TypeIdentifier::Float64, "double"),
        (TypeIdentifier::Bit, "bool"),
        (TypeIdentifier::Byte, "unsigned char"),
    ];
    for (kind, spelling) in &kinds {
        assert_eq!(generate_type_identifier_code(kind), *spelling);
    }
    for (i, (a, _)) in kinds.iter().enumerate() {
        for (j, (b, _)) in kinds.iter().enumerate() {
            let same = generate_type_identifier_code(a) == generate_type_identifier_code(b);
            assert_eq!(same, i == j);
        }
    }
}

#[test]
fn array_types_are_spelled_by_their_elements() {
    let dynamic = TypeIdentifier::DynamicArray {
        typ: Box::new(TypeIdentifier::UserDefined(Identifier::new("Item"))),
    };
    assert_eq!(generate_type_identifier_code(&dynamic), "Item*");
    let alias = TypeDefinition { new_type: Identifier::new("Items"), typ: dynamic };
    assert_eq!(generate_type_definition_code(&alias), "typedef Item* Items;\n\n");
}

#[test]
fn an_empty_protocol_gives_only_the_includes() {
    let p = Protocol { definitions: vec![] };
    assert_eq!(generate_c_code(&p), "#include <stdint.h>\n#include <stdbool.h>\n\n");
}
