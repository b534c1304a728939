use meksmith::ast::{
    Definition, Identifier, Protocol, StructureDefinition, StructureField, TypeDefinition,
    TypeIdentifier, UnionDefinition, UnionField, extract_custom_type_identifier_name,
    extract_structure_subtypes, extract_union_subtypes,
};
use meksmith::parse_protocol_to_ast;
use meksmith::resolver::sort_protocol_by_dependencies;

fn name_of(def: &Definition) -> &str {
    match def {
        Definition::Enumeration(e) => &e.name.name,
        Definition::Structure(s) => &s.name.name,
        Definition::Union(u) => &u.name.name,
        Definition::Type(t) => &t.new_type.name,
    }
}

fn find_definition_index_by_name(protocol: &Protocol, name: &str) -> usize {
    protocol
        .definitions
        .iter()
        .position(|def| name_of(def) == name)
        .expect("Definition not found")
}

fn assert_def_is_before_another_def(sorted_protocol: &Protocol, first_name: &str, second_name: &str) {
    let first_index = find_definition_index_by_name(sorted_protocol, first_name);
    let second_index = find_definition_index_by_name(sorted_protocol, second_name);
    assert!(
        first_index < second_index,
        "Expected {first_name} to be before {second_name}",
    );
}

fn names(protocol: &Protocol) -> Vec<String> {
    protocol.definitions.iter().map(|d| name_of(d).to_string()).collect()
}

const PING_PONG: &str = r#"
# A device answers each ping with a pong.
union Message {
    0 => pingPong: PingPong;
    1 => raw: byte[];
};

struct PingPong {
    kind: MessageType;
    [discriminated_by=kind]
    ping: Ping;
    pong: Pong;
};

enum MessageType {
    ping = 0;
    pong = 1;
};

struct Ping {
    source: IpAddress;
    sequence: uint32;
};

struct Pong {
    name: DeviceName;
    status: DeviceStatus;
    sequence: uint32;
};

using IpAddress = uint8[4];
using DeviceName = byte[32];

enum DeviceStatus {
    idle = 0;
    busy = 1;
    reserved = 2..7;
};
"#;

#[test]
fn test_extract_custom_type_identifier_name_user_defined() {
    let type_id = TypeIdentifier::UserDefined(Identifier::new("CustomType"));
    assert_eq!(
        extract_custom_type_identifier_name(&type_id),
        Some("CustomType".to_string())
    );
}

#[test]
fn test_extract_custom_type_identifier_name_static_array() {
    let type_id = TypeIdentifier::StaticArray {
        typ: Box::new(TypeIdentifier::UserDefined(Identifier::new("CustomType"))),
        size: 10,
    };
    assert_eq!(
        extract_custom_type_identifier_name(&type_id),
        Some("CustomType".to_string())
    );
}

#[test]
fn test_extract_custom_type_identifier_name_dynamic_array() {
    let type_id = TypeIdentifier::DynamicArray {
        typ: Box::new(TypeIdentifier::UserDefined(Identifier::new("CustomType"))),
    };
    assert_eq!(
        extract_custom_type_identifier_name(&type_id),
        Some("CustomType".to_string())
    );
}

#[test]
fn test_extract_custom_type_identifier_with_builtin_type() {
    for type_id in [
        TypeIdentifier::Integer8,
        TypeIdentifier::Integer16,
        TypeIdentifier::Integer32,
        TypeIdentifier::Integer64,
        TypeIdentifier::UnsignedInteger8,
        TypeIdentifier::UnsignedInteger16,
        TypeIdentifier::UnsignedInteger32,
        TypeIdentifier::UnsignedInteger64,
        TypeIdentifier::Float32,
        TypeIdentifier::Float64,
        TypeIdentifier::Bit,
        TypeIdentifier::Byte,
    ] {
        assert_eq!(extract_custom_type_identifier_name(&type_id), None);
    }
}

#[test]
fn test_extract_structure_subtypes() {
    let structure_def = StructureDefinition {
        name: Identifier::new("TestStructure"),
        fields: vec![
            StructureField {
                name: Identifier::new("field1"),
                typ: TypeIdentifier::UserDefined(Identifier::new("SubType1")),
                attributes: vec![],
            },
            StructureField {
                name: Identifier::new("field2"),
                typ: TypeIdentifier::Integer32,
                attributes: vec![],
            },
            StructureField {
                name: Identifier::new("field3"),
                typ: TypeIdentifier::UserDefined(Identifier::new("SubType2")),
                attributes: vec![],
            },
        ],
    };

    let subtypes = extract_structure_subtypes(&structure_def);
    assert_eq!(subtypes, vec!["SubType1".to_string(), "SubType2".to_string()]);
}

#[test]
fn test_extract_union_subtypes() {
    let union_def = UnionDefinition {
        name: Identifier::new("TestUnion"),
        fields: vec![
            UnionField::SingleValue {
                name: Identifier::new("field1"),
                typ: TypeIdentifier::UserDefined(Identifier::new("SubType1")),
                discriminator: 0,
            },
            UnionField::RangeOfValues {
                name: Identifier::new("field2"),
                typ: TypeIdentifier::UserDefined(Identifier::new("SubType2")),
                start_discriminator: 1,
                end_discriminator: 5,
            },
            UnionField::SingleValue {
                name: Identifier::new("field3"),
                typ: TypeIdentifier::Integer32,
                discriminator: 6,
            },
        ],
    };

    let subtypes = extract_union_subtypes(&union_def);
    assert_eq!(subtypes, vec!["SubType1".to_string(), "SubType2".to_string()]);
}

#[test]
fn test_sort_protocol_by_dependencies_with_ping_pong_example() {
    let parsed = parse_protocol_to_ast(PING_PONG).expect("Parsing failed");
    let sorted = sort_protocol_by_dependencies(&parsed);
    let sorted = sorted.expect("Sorting failed");

    assert_eq!(sorted.definitions.len(), 8);

    assert_def_is_before_another_def(&sorted, "IpAddress", "Ping");
    assert_def_is_before_another_def(&sorted, "DeviceName", "Pong");
    assert_def_is_before_another_def(&sorted, "DeviceStatus", "Pong");

    assert_def_is_before_another_def(&sorted, "Ping", "PingPong");
    assert_def_is_before_another_def(&sorted, "Pong", "PingPong");

    assert_def_is_before_another_def(&sorted, "MessageType", "Message");
    assert_def_is_before_another_def(&sorted, "PingPong", "Message");
}

#[test]
fn test_sort_protocol_by_dependencies_with_circular_dependency() {
    let code = r#"
struct A {
    field1: B;
};

struct B {
    field1: A;
};
"#;
    let parsed = parse_protocol_to_ast(code).expect("Parsing failed");
    let sorted = sort_protocol_by_dependencies(&parsed);

    assert!(sorted.is_err(), "Failed to detect circular dependency");
    assert_eq!(sorted.err().unwrap(), "Circular dependency detected for A");
}

#[test]
fn sorting_an_ordered_protocol_again_keeps_its_order() {
    let parsed = parse_protocol_to_ast(PING_PONG).unwrap();
    let once = sort_protocol_by_dependencies(&parsed).unwrap();
    let twice = sort_protocol_by_dependencies(&once).unwrap();
    assert_eq!(once, twice);
}

#[test]
fn sorting_emits_dependencies_depth_first() {
    let parsed = parse_protocol_to_ast(PING_PONG).unwrap();
    let sorted = sort_protocol_by_dependencies(&parsed).unwrap();
    assert_eq!(
        names(&sorted),
        vec![
            "MessageType",
            "IpAddress",
            "Ping",
            "DeviceName",
            "DeviceStatus",
            "Pong",
            "PingPong",
            "Message",
        ]
    );
}

#[test]
fn every_reference_points_backwards_after_sorting() {
    let parsed = parse_protocol_to_ast(PING_PONG).unwrap();
    let sorted = sort_protocol_by_dependencies(&parsed).unwrap();
    for (i, def) in sorted.definitions.iter().enumerate() {
        let refs: Vec<String> = match def {
            Definition::Enumeration(_) => vec![],
            Definition::Structure(s) => extract_structure_subtypes(s),
            Definition::Union(u) => extract_union_subtypes(u),
            Definition::Type(t) => extract_custom_type_identifier_name(&t.typ).into_iter().collect(),
        };
        for r in refs {
            if let Some(j) = sorted.definitions.iter().position(|d| name_of(d) == r) {
                assert!(j < i, "{r} should come before {}", name_of(def));
            }
        }
    }
}

#[test]
fn a_self_referencing_alias_is_a_cycle() {
    let parsed = parse_protocol_to_ast("using T = T[];").unwrap();
    assert_eq!(
        sort_protocol_by_dependencies(&parsed).unwrap_err(),
        "Circular dependency detected for T"
    );
}

#[test]
fn a_longer_cycle_is_reported_at_its_first_declaration() {
    let parsed = parse_protocol_to_ast(
        "struct Root { c: C; }; struct C { a: A; }; struct A { b: B; }; using B = C[2];",
    )
    .unwrap();
    assert_eq!(
        sort_protocol_by_dependencies(&parsed).unwrap_err(),
        "Circular dependency detected for C"
    );
}

#[test]
fn an_acyclic_protocol_sorts_successfully() {
    let parsed =
        parse_protocol_to_ast("struct A { b: B; c: C; }; struct B { c: C; }; enum C { x = 1; };")
            .unwrap();
    let sorted = sort_protocol_by_dependencies(&parsed).unwrap();
    assert_eq!(names(&sorted), vec!["C", "B", "A"]);
}

#[test]
fn unknown_names_are_leaves() {
    let parsed = parse_protocol_to_ast("struct A { x: Missing; y: Other[3]; };").unwrap();
    let sorted = sort_protocol_by_dependencies(&parsed).unwrap();
    assert_eq!(sorted, parsed);
}

#[test]
fn a_name_declared_twice_keeps_the_declaration_visited_first() {
    let parsed = parse_protocol_to_ast("using T = int8; struct S { t: T; }; using T = int16;").unwrap();
    let sorted = sort_protocol_by_dependencies(&parsed).unwrap();
    assert_eq!(names(&sorted), vec!["T", "S"]);
    assert_eq!(
        sorted.definitions[0],
        Definition::Type(TypeDefinition {
            new_type: Identifier::new("T"),
            typ: TypeIdentifier::Integer8,
        })
    );
}

#[test]
fn a_duplicate_enumeration_keeps_the_first() {
    let parsed = parse_protocol_to_ast("enum X { a = 1; }; enum X { b = 2; };").unwrap();
    let sorted = sort_protocol_by_dependencies(&parsed).unwrap();
    assert_eq!(sorted.definitions.len(), 1);
    assert_eq!(sorted.definitions[0], parsed.definitions[0]);
}

#[test]
fn a_reference_resolves_to_the_last_declaration_of_a_name() {
    let parsed =
        parse_protocol_to_ast("struct S { t: T; }; using T = int8; using T = int16;").unwrap();
    let sorted = sort_protocol_by_dependencies(&parsed).unwrap();
    assert_eq!(names(&sorted), vec!["T", "S"]);
    assert_eq!(sorted.definitions[0], parsed.definitions[2]);
}

#[test]
fn an_empty_protocol_sorts_to_itself() {
    let empty = Protocol { definitions: vec![] };
    assert_eq!(sort_protocol_by_dependencies(&empty).unwrap(), empty);
}

#[test]
fn a_dependency_is_emitted_just_before_its_first_user() {
    let parsed = parse_protocol_to_ast("using T = S; enum X { x = 1; }; enum S { s = 2; };").unwrap();
    let sorted = sort_protocol_by_dependencies(&parsed).unwrap();
    assert_eq!(names(&sorted), vec!["S", "T", "X"]);
}
