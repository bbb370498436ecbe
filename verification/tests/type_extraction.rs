use omnideps::heuristics::type_extraction::{parse_generic_from_text, parse_type_from_text};
use omnideps::model::queries::TypeRef;

#[test]
fn test_parse_generic_simple_angle_brackets() {
    let tr = parse_generic_from_text("Box<Transport::Car>").expect("Should parse generic");
    match tr {
        TypeRef::Generic { base, args } => {
            assert_eq!(*base, TypeRef::Unresolved(vec!["Box".to_string()]));
            assert_eq!(args.len(), 1);
            assert_eq!(
                args[0],
                TypeRef::Unresolved(vec!["Transport".to_string(), "Car".to_string()])
            );
        }
        _ => panic!("Expected TypeRef::Generic"),
    }
}

#[test]
fn test_parse_generic_multiple_arguments() {
    let tr = parse_generic_from_text("KeyValue<int, Transport::Car>").expect("Should parse generic");
    match tr {
        TypeRef::Generic { base, args } => {
            assert_eq!(*base, TypeRef::Unresolved(vec!["KeyValue".to_string()]));
            assert_eq!(args.len(), 2);
        }
        _ => panic!("Expected TypeRef::Generic"),
    }
}

#[test]
fn test_parse_generic_nested_square_brackets() {
    let tr = parse_generic_from_text("dict[str, list[User]]").expect("Should parse generic");
    match tr {
        TypeRef::Generic { base, args } => {
            assert_eq!(*base, TypeRef::Unresolved(vec!["dict".to_string()]));
            assert_eq!(args.len(), 2);
            assert!(matches!(args[1], TypeRef::Generic { .. }));
        }
        _ => panic!("Expected TypeRef::Generic"),
    }
}

#[test]
fn test_parse_generic_non_generic() {
    assert!(parse_generic_from_text("Car").is_none());
    assert!(parse_generic_from_text("Transport::Car").is_none());
}

#[test]
fn parse_type_strips_references_and_splits_paths() {
    assert_eq!(
        parse_type_from_text(" &std::vec::Vec "),
        TypeRef::Unresolved(vec!["std".to_string(), "vec".to_string(), "Vec".to_string()])
    );
    assert_eq!(
        parse_type_from_text("&mut Car"),
        TypeRef::Unresolved(vec!["mut Car".to_string()])
    );
}

#[test]
fn parse_type_splits_unions() {
    assert_eq!(
        parse_type_from_text("int | *Car"),
        TypeRef::Union(vec![
            TypeRef::Unresolved(vec!["int".to_string()]),
            TypeRef::Unresolved(vec!["Car".to_string()]),
        ])
    );
}
