use meksmith::ast::{
    Attribute, Definition, EnumerationDefinition, EnumerationField, Identifier, Protocol,
    StructureDefinition, StructureField, TypeDefinition, TypeIdentifier, UnionDefinition,
    UnionField,
};
use meksmith::get_error_location;
use meksmith::lexer::{TokenKind, tokenize};
use meksmith::parse_protocol_to_ast;
use meksmith::parser::{identifier, unsigned_integer};
use meksmith::text::chars_of;

fn kinds(text: &str) -> Vec<TokenKind> {
    tokenize(&chars_of(text)).iter().map(|t| t.kind).collect()
}

fn single_definition(text: &str) -> Definition {
    let mut protocol = parse_protocol_to_ast(text).expect("parsing failed");
    assert_eq!(protocol.definitions.len(), 1);
    protocol.definitions.remove(0)
}

fn my_enum() -> Definition {
    Definition::Enumeration(EnumerationDefinition {
        name: Identifier::new("MyEnum"),
        fields: vec![
            EnumerationField::SingleValue { name: Identifier::new("myField"), value: 42 },
            EnumerationField::RangeOfValues { name: Identifier::new("myRange"), start: 10, end: 20 },
        ],
    })
}

fn my_struct() -> Definition {
    Definition::Structure(StructureDefinition {
        name: Identifier::new("MyStruct"),
        fields: vec![
            StructureField {
                attributes: vec![],
                name: Identifier::new("myField"),
                typ: TypeIdentifier::Integer32,
            },
            StructureField {
                attributes: vec![],
                name: Identifier::new("myArray"),
                typ: TypeIdentifier::DynamicArray { typ: Box::new(TypeIdentifier::UnsignedInteger64) },
            },
        ],
    })
}

fn my_union() -> Definition {
    Definition::Union(UnionDefinition {
        name: Identifier::new("MyUnion"),
        fields: vec![
            UnionField::SingleValue {
                name: Identifier::new("myField"),
                typ: TypeIdentifier::Integer32,
                discriminator: 1,
            },
            UnionField::SingleValue {
                name: Identifier::new("myArray"),
                typ: TypeIdentifier::DynamicArray { typ: Box::new(TypeIdentifier::UnsignedInteger64) },
                discriminator: 2,
            },
        ],
    })
}

#[test]
fn test_parse_protocol_to_ast() {
    let input = r#"
using MyType = int32[10];
        "#;

    let result = parse_protocol_to_ast(input);
    assert!(result.is_ok());
    let protocol = result.unwrap();
    assert_eq!(protocol.definitions.len(), 1);
    if let Definition::Type(type_def) = &protocol.definitions[0] {
        assert_eq!(type_def.new_type.name, "MyType");
        assert_eq!(
            type_def.typ,
            TypeIdentifier::StaticArray { typ: Box::new(TypeIdentifier::Integer32), size: 10 }
        );
    } else {
        panic!("Expected a TypeDefinition");
    }
}

#[test]
fn test_parse_protocol_to_ast_with_errors() {
    let input = r#"
using MyType = int32[10;
        "#;

    let result = parse_protocol_to_ast(input);
    assert!(result.is_err());
    assert!(
        result
            .unwrap_err()
            .contains("Parsing failed. Errors: found ';' expected digit, or right bracket")
    );
}

#[test]
fn a_missing_bracket_is_reported_with_its_place() {
    let err = parse_protocol_to_ast("\nusing MyType = int32[10;\n").unwrap_err();
    assert_eq!(
        err,
        "Parsing failed. Errors: found ';' expected digit, or right bracket (]) in 2:24"
    );
}

#[test]
fn an_unfinished_declaration_is_reported_at_the_end() {
    let err = parse_protocol_to_ast("enum E { a = 1;").unwrap_err();
    assert_eq!(
        err,
        "Parsing failed. Errors: found end of input expected identifier, or right brace (}) in 1:16"
    );
}

#[test]
fn an_unknown_keyword_is_not_a_definition() {
    let err = parse_protocol_to_ast("enum E { a = 1; };\nstructure S { x: bit; };").unwrap_err();
    assert_eq!(err, "Parsing failed. Errors: found 's' expected definition, or comment in 2:1");
}

#[test]
fn a_number_too_large_is_rejected() {
    let err = parse_protocol_to_ast("using T = int8[18446744073709551616];").unwrap_err();
    assert_eq!(
        err,
        "Parsing failed. Errors: found '1' expected unsigned integer below 2^64 in 1:16"
    );
    let ok = single_definition("using T = int8[18446744073709551615];");
    assert_eq!(
        ok,
        Definition::Type(TypeDefinition {
            new_type: Identifier::new("T"),
            typ: TypeIdentifier::StaticArray { typ: Box::new(TypeIdentifier::Integer8), size: u64::MAX },
        })
    );
}

#[test]
fn comments_are_not_allowed_inside_declarations() {
    assert!(parse_protocol_to_ast("struct S {\n# no\n x: bit; };").is_err());
}

#[test]
fn an_empty_text_is_an_empty_protocol() {
    assert_eq!(parse_protocol_to_ast("").unwrap(), Protocol { definitions: vec![] });
    assert_eq!(parse_protocol_to_ast("  \n# only a comment").unwrap(), Protocol { definitions: vec![] });
}

#[test]
fn arrays_of_arrays_nest_left_to_right() {
    let def = single_definition("using Grid = uint8[3][];");
    assert_eq!(
        def,
        Definition::Type(TypeDefinition {
            new_type: Identifier::new("Grid"),
            typ: TypeIdentifier::DynamicArray {
                typ: Box::new(TypeIdentifier::StaticArray {
                    typ: Box::new(TypeIdentifier::UnsignedInteger8),
                    size: 3,
                }),
            },
        })
    );
}

#[test]
fn names_that_start_with_a_builtin_are_user_types() {
    let def = single_definition("using Flags = bitmap;");
    assert_eq!(
        def,
        Definition::Type(TypeDefinition {
            new_type: Identifier::new("Flags"),
            typ: TypeIdentifier::UserDefined(Identifier::new("bitmap")),
        })
    );
}

#[test]
fn union_ranges_and_attributes_parse() {
    let def = single_definition("union U { 0x3..0b100 => x: uint16; };");
    assert_eq!(
        def,
        Definition::Union(UnionDefinition {
            name: Identifier::new("U"),
            fields: vec![UnionField::RangeOfValues {
                name: Identifier::new("x"),
                typ: TypeIdentifier::UnsignedInteger16,
                start_discriminator: 3,
                end_discriminator: 4,
            }],
        })
    );
}

#[test]
fn error_locations_count_lines_and_columns_from_one() {
    let text = chars_of("ab\ncd\n\nx");
    assert_eq!(get_error_location(&text, 0), (1, 1));
    assert_eq!(get_error_location(&text, 1), (1, 2));
    assert_eq!(get_error_location(&text, 3), (2, 1));
    assert_eq!(get_error_location(&text, 7), (4, 1));
    assert_eq!(get_error_location(&text, 8), (4, 2));
}

#[test]
fn test_left_brace() {
    assert_eq!(kinds("{"), vec![TokenKind::LeftBrace]);
}

#[test]
fn test_left_brace_with_whitespaces() {
    assert_eq!(kinds("   {   "), vec![TokenKind::LeftBrace]);
}

#[test]
fn test_right_brace() {
    assert_eq!(kinds("}"), vec![TokenKind::RightBrace]);
}

#[test]
fn test_right_brace_with_whitespaces() {
    assert_eq!(kinds("   }   "), vec![TokenKind::RightBrace]);
}

#[test]
fn test_left_bracket() {
    assert_eq!(kinds("["), vec![TokenKind::LeftBracket]);
}

#[test]
fn test_left_bracket_with_whitespaces() {
    assert_eq!(kinds("   [   "), vec![TokenKind::LeftBracket]);
}

#[test]
fn test_right_bracket() {
    assert_eq!(kinds("]"), vec![TokenKind::RightBracket]);
}

#[test]
fn test_right_bracket_with_whitespaces() {
    assert_eq!(kinds("   ]   "), vec![TokenKind::RightBracket]);
}

#[test]
fn test_semicolon() {
    assert_eq!(kinds(";"), vec![TokenKind::Semicolon]);
}

#[test]
fn test_semicolon_with_whitespaces() {
    assert_eq!(kinds("   ;   "), vec![TokenKind::Semicolon]);
}

#[test]
fn test_colon() {
    assert_eq!(kinds(":"), vec![TokenKind::Colon]);
}

#[test]
fn test_colon_with_whitespaces() {
    assert_eq!(kinds("   :   "), vec![TokenKind::Colon]);
}

#[test]
fn test_maps_to() {
    assert_eq!(kinds("=>"), vec![TokenKind::MapsTo]);
}

#[test]
fn test_maps_to_with_whitespaces() {
    assert_eq!(kinds("   =>   "), vec![TokenKind::MapsTo]);
}

#[test]
fn test_equal() {
    assert_eq!(kinds("="), vec![TokenKind::Equal]);
}

#[test]
fn test_equal_with_whitespaces() {
    assert_eq!(kinds("   =   "), vec![TokenKind::Equal]);
}

#[test]
fn test_comma() {
    assert_eq!(kinds(","), vec![TokenKind::Comma]);
}

#[test]
fn test_comma_with_whitespaces() {
    assert_eq!(kinds("   ,   "), vec![TokenKind::Comma]);
}

#[test]
fn test_double_dot() {
    assert_eq!(kinds(".."), vec![TokenKind::DoubleDot]);
}

#[test]
fn test_double_dot_with_whitespaces() {
    assert_eq!(kinds("   ..   "), vec![TokenKind::DoubleDot]);
}

#[test]
fn test_hexadecimal() {
    assert_eq!(unsigned_integer("0x1A3F"), Some(0x1A3F));
    assert_eq!(unsigned_integer("0x1a3f"), Some(0x1A3F));
}

#[test]
fn test_hexadecimal_with_zero_padding() {
    assert_eq!(unsigned_integer("0x00FF"), Some(0xFF));
}

#[test]
fn test_binary() {
    assert_eq!(unsigned_integer("0b1101"), Some(0b1101));
}

#[test]
fn test_binary_with_zero_padding() {
    assert_eq!(unsigned_integer("0b00001101"), Some(0b1101));
}

#[test]
fn test_decimal() {
    assert_eq!(unsigned_integer("12345"), Some(12345));
}

#[test]
fn test_decimal_with_leading_zeros() {
    assert_eq!(unsigned_integer("0012345"), Some(12345));
}

#[test]
fn test_unsigned_integer() {
    for value in ["5589", "0x15D5", "0b1010111010101"] {
        assert_eq!(unsigned_integer(value), Some(5589));
    }
}

#[test]
fn parser_test_identifier() {
    assert_eq!(identifier("myIdentifier"), Some(Identifier::new("myIdentifier")));
}

#[test]
fn test_identifier_starting_with_underscore() {
    assert_eq!(identifier("_myIdentifier"), Some(Identifier::new("_myIdentifier")));
}

#[test]
fn test_identifier_with_numbers_at_the_end() {
    assert_eq!(identifier("myIdentifier123"), Some(Identifier::new("myIdentifier123")));
}

#[test]
fn test_identifier_starting_with_numbers() {
    assert_eq!(identifier("123InvalidIdentifier"), None);
}

#[test]
fn test_identifier_empty() {
    assert_eq!(identifier(""), None);
}

#[test]
fn test_identifier_with_special_characters() {
    assert_eq!(identifier("myIdentifier@"), None);
    assert_eq!(kinds("myIdentifier@"), vec![TokenKind::Word, TokenKind::Invalid]);
}

#[test]
fn parser_test_enumeration() {
    assert_eq!(single_definition("enum MyEnum { myField = 42; myRange = 10..20; };"), my_enum());
}

#[test]
fn test_enumeration_with_multiline_input() {
    let input = "enum MyEnum {
            myField = 42;
            myRange = 10..20;
        };";
    assert_eq!(single_definition(input), my_enum());
}

#[test]
fn test_enumeration_with_newline_breaks() {
    let input = "enum MyEnum {\r\nmyField = 42;\nmyRange = 10..20;\n};";
    assert_eq!(single_definition(input), my_enum());
}

#[test]
fn test_enumeration_without_identifier() {
    assert!(parse_protocol_to_ast("enum { myField = 42; };").is_err());
}

#[test]
fn test_enumeration_without_fields() {
    assert!(parse_protocol_to_ast("enum MyEnum { };").is_err());
}

#[test]
fn parser_test_structure() {
    assert_eq!(
        single_definition("struct MyStruct { myField: int32; myArray: uint64[]; };"),
        my_struct()
    );
}

#[test]
fn test_structure_with_multiline_input() {
    let input = "struct MyStruct {\n    myField: int32;\n    myArray: uint64[];\n};";
    assert_eq!(single_definition(input), my_struct());
}

#[test]
fn test_structure_without_identifier() {
    assert!(parse_protocol_to_ast("struct { myField: int32; };").is_err());
}

#[test]
fn test_structure_without_fields() {
    assert!(parse_protocol_to_ast("struct MyStruct { };").is_err());
}

#[test]
fn test_structure_with_invalid_field() {
    assert!(parse_protocol_to_ast("struct Xyz {\n\n myField: int32 };").is_err());
}

#[test]
fn parser_test_union() {
    let input = "union MyUnion { 1 => myField: int32; 2 => myArray: uint64[]; };";
    assert_eq!(single_definition(input), my_union());
}

#[test]
fn test_union_with_multiline_input() {
    let input = "union MyUnion {\n    1 => myField: int32;\n    2 => myArray: uint64[];\n};";
    assert_eq!(single_definition(input), my_union());
}

#[test]
fn test_union_without_identifier() {
    assert!(parse_protocol_to_ast("union { 1 => myField: int32; };").is_err());
}

#[test]
fn test_type_definition() {
    assert_eq!(
        single_definition("using MyType = int32;"),
        Definition::Type(TypeDefinition {
            new_type: Identifier::new("MyType"),
            typ: TypeIdentifier::Integer32,
        })
    );
}

#[test]
fn test_type_definition_with_user_defined_type() {
    assert_eq!(
        single_definition("using MyType = MyCustomType;"),
        Definition::Type(TypeDefinition {
            new_type: Identifier::new("MyType"),
            typ: TypeIdentifier::UserDefined(Identifier::new("MyCustomType")),
        })
    );
}

#[test]
fn test_type_definition_with_static_array() {
    assert_eq!(
        single_definition("using MyType = int32[10];"),
        Definition::Type(TypeDefinition {
            new_type: Identifier::new("MyType"),
            typ: TypeIdentifier::StaticArray { typ: Box::new(TypeIdentifier::Integer32), size: 10 },
        })
    );
}

#[test]
fn test_type_definition_with_dynamic_array() {
    assert_eq!(
        single_definition("using MyType = uint64[];"),
        Definition::Type(TypeDefinition {
            new_type: Identifier::new("MyType"),
            typ: TypeIdentifier::DynamicArray { typ: Box::new(TypeIdentifier::UnsignedInteger64) },
        })
    );
}

#[test]
fn parser_test_definition_with_enumeration() {
    assert_eq!(single_definition("enum MyEnum { myField = 42; myRange = 10..20; };"), my_enum());
}

#[test]
fn parser_test_definition_with_structure() {
    assert_eq!(
        single_definition("struct MyStruct { myField: int32; myArray: uint64[]; };"),
        my_struct()
    );
}

#[test]
fn parser_test_definition_with_union() {
    assert_eq!(
        single_definition("union MyUnion { 1 => myField: int32; 2 => myArray: uint64[]; };"),
        my_union()
    );
}

#[test]
fn test_definition_with_type_definition() {
    assert_eq!(
        single_definition("using MyType = int32;"),
        Definition::Type(TypeDefinition {
            new_type: Identifier::new("MyType"),
            typ: TypeIdentifier::Integer32,
        })
    );
}

#[test]
fn test_comment_starting_after_space() {
    assert_eq!(kinds("# This is a comment\n"), vec![TokenKind::Comment]);
}

#[test]
fn test_comment_starting_after_indent() {
    assert_eq!(kinds("    # This is a comment with leading spaces\n"), vec![TokenKind::Comment]);
}

#[test]
fn test_comment_without_space() {
    assert_eq!(kinds("#This is a comment without leading space"), vec![TokenKind::Comment]);
}

#[test]
fn test_protocol() {
    let input = r#"
using MyType = int32[10];
# full line comment does not break things
enum MyEnum {
    myField = 42;
    myRange = 10..20;
};
        # some strange formatted comment also works
struct MyStruct {
    myField: int32;
    myArray: uint64[];
    [bits = 5, bytes = 10, discriminated_by = myType]
    myType: MyType;
};
#and without space it also does work
union MyUnion {
    1 => myField: int32;
    2 => myArray: uint64[];
};
"#;
    let protocol = parse_protocol_to_ast(input).unwrap();
    let mut structure = match my_struct() {
        Definition::Structure(s) => s,
        _ => unreachable!(),
    };
    structure.fields.push(StructureField {
        attributes: vec![
            Attribute::BitsSize { size: 5 },
            Attribute::BytesSize { size: 10 },
            Attribute::DiscriminatedBy { field: Identifier::new("myType") },
        ],
        name: Identifier::new("myType"),
        typ: TypeIdentifier::UserDefined(Identifier::new("MyType")),
    });
    assert_eq!(
        protocol,
        Protocol {
            definitions: vec![
                Definition::Type(TypeDefinition {
                    new_type: Identifier::new("MyType"),
                    typ: TypeIdentifier::StaticArray {
                        typ: Box::new(TypeIdentifier::Integer32),
                        size: 10,
                    },
                }),
                my_enum(),
                Definition::Structure(structure),
                my_union(),
            ],
        }
    );
}
