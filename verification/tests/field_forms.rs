use proc_macro2::{Delimiter, Group, TokenStream, TokenTree};
use struct_migration::field::MigrationField;
use struct_migration::syntax::ParseError;
use struct_migration::tokens::{read_tokens, Token, TokenKind};

fn text(t: &struct_migration::syntax::TypeRef) -> String {
    t.tokens.iter().map(|x| x.raw().clone()).collect::<proc_macro2::TokenStream>().to_string()
}

fn block_len(t: &Token) -> usize {
    match t.kind() {
        TokenKind::Group(_, inner) => inner.len(),
        _ => panic!("a converter is a group"),
    }
}

fn tokens(src: &str) -> Vec<Token> {
    read_tokens(src.parse::<proc_macro2::TokenStream>().unwrap()).unwrap()
}

fn parse_one(src: &str) -> Result<(MigrationField, usize), ParseError> {
    let toks = tokens(src);
    MigrationField::parse(&toks, 0)
}

fn names(fields: &[(String, struct_migration::syntax::TypeRef)]) -> Vec<(String, String)> {
    fields.iter().map(|(n, t)| (n.clone(), text(t))).collect()
}

#[test]
fn add_without_block() {
    let (field, end) = parse_one("+ count: u32").unwrap();
    assert_eq!(end, 4);
    match field {
        MigrationField::Add { value, converter } => {
            assert_eq!(value.0, "count");
            assert_eq!(text(&value.1), "u32");
            assert!(converter.is_none());
        }
        _ => panic!("expected an addition"),
    }
}

#[test]
fn add_with_block() {
    let (field, end) = parse_one("+ tags: Vec<String> { vec![] }").unwrap();
    assert_eq!(end, 8);
    match field {
        MigrationField::Add { value, converter } => {
            assert_eq!(value.0, "tags");
            assert_eq!(text(&value.1), "Vec < String >");
            assert_eq!(block_len(&converter.unwrap()), 3);
        }
        _ => panic!("expected an addition"),
    }
}

#[test]
fn remove_field() {
    let (field, end) = parse_one("- old: std::string::String").unwrap();
    assert_eq!(end, 10);
    match field {
        MigrationField::Remove { value } => {
            assert_eq!(value.0, "old");
            assert_eq!(text(&value.1), "std :: string :: String");
        }
        _ => panic!("expected a removal"),
    }
}

#[test]
fn copy_forms() {
    match parse_one("+ a: u8 => b: u16").unwrap().0 {
        MigrationField::Copy { source, target, converter } => {
            assert_eq!(names(&source), vec![("a".to_string(), "u8".to_string())]);
            assert_eq!((target.0.as_str(), text(&target.1).as_str()), ("b", "u16"));
            assert!(converter.is_none());
        }
        _ => panic!("expected a copy"),
    }
    match parse_one("+ a => b: u8 { a * 2 }").unwrap().0 {
        MigrationField::Copy { source, target, converter } => {
            assert_eq!(names(&source), vec![("a".to_string(), "u8".to_string())]);
            assert_eq!((target.0.as_str(), text(&target.1).as_str()), ("b", "u8"));
            assert!(converter.is_some());
        }
        _ => panic!("expected a copy"),
    }
    match parse_one("+ (x: f32, y: f32) => len: f32 { (x * x + y * y).sqrt() }").unwrap().0 {
        MigrationField::Copy { source, target, converter } => {
            assert_eq!(
                names(&source),
                vec![("x".to_string(), "f32".to_string()), ("y".to_string(), "f32".to_string())]
            );
            assert_eq!(target.0, "len");
            assert!(converter.is_some());
        }
        _ => panic!("expected a copy"),
    }
}

#[test]
fn rename_forms() {
    match parse_one("a: u8 => b: u16").unwrap().0 {
        MigrationField::Rename { source, target, converter } => {
            assert_eq!(names(&source), vec![("a".to_string(), "u8".to_string())]);
            assert_eq!((target.0.as_str(), text(&target.1).as_str()), ("b", "u16"));
            assert!(converter.is_none());
        }
        _ => panic!("expected a rename"),
    }
    match parse_one("a: u8 => u64 { a as u64 }").unwrap().0 {
        MigrationField::Rename { source, target, converter } => {
            assert_eq!(names(&source), vec![("a".to_string(), "u8".to_string())]);
            assert_eq!((target.0.as_str(), text(&target.1).as_str()), ("a", "u64"));
            assert!(converter.is_some());
        }
        _ => panic!("expected a rename"),
    }
    match parse_one("a => b: u8").unwrap().0 {
        MigrationField::Rename { source, target, .. } => {
            assert_eq!(names(&source), vec![("a".to_string(), "u8".to_string())]);
            assert_eq!(target.0, "b");
        }
        _ => panic!("expected a rename"),
    }
    match parse_one("(first: String, last: String) => name: String { first + &last }").unwrap().0 {
        MigrationField::Rename { source, target, converter } => {
            assert_eq!(source.len(), 2);
            assert_eq!(target.0, "name");
            assert!(converter.is_some());
        }
        _ => panic!("expected a rename"),
    }
}

#[test]
fn refused_forms() {
    assert_eq!(parse_one("+ 1: u8").err(), Some(ParseError::ExpectedIdent));
    assert_eq!(parse_one("- a u8").err(), Some(ParseError::ExpectedColon));
    assert_eq!(parse_one("a: u8 b").err(), Some(ParseError::ExpectedFatArrow));
    assert_eq!(parse_one("- a: 5").err(), Some(ParseError::ExpectedTypePath));
    assert_eq!(parse_one("(a: u8) => b: u8").err(), Some(ParseError::ExpectedBraces));
    assert_eq!(parse_one("- type: u8").err(), Some(ParseError::ExpectedIdent));
}

#[test]
fn type_change_to_a_path() {
    match parse_one("a: i32 => std::string::String").unwrap() {
        (MigrationField::Rename { source, target, converter }, end) => {
            assert_eq!(end, 12);
            assert_eq!(names(&source), vec![("a".to_string(), "i32".to_string())]);
            assert_eq!((target.0.as_str(), text(&target.1).as_str()), ("a", "std :: string :: String"));
            assert!(converter.is_none());
        }
        _ => panic!("expected a rename"),
    }
}

#[test]
fn a_converter_keeps_its_invisible_groups() {
    let sum = Group::new(Delimiter::None, "a + 1".parse::<TokenStream>().unwrap());
    let mut body: TokenStream = std::iter::once(TokenTree::Group(sum)).collect();
    body.extend("* 2".parse::<TokenStream>().unwrap());
    let mut input: TokenStream = "+ x: u8".parse().unwrap();
    input.extend(std::iter::once(TokenTree::Group(Group::new(Delimiter::Brace, body))));
    let toks = read_tokens(input).unwrap();
    match MigrationField::parse(&toks, 0).unwrap().0 {
        MigrationField::Add { converter, .. } => {
            let converter = converter.unwrap();
            assert_eq!(block_len(&converter), 5);
            match converter.written() {
                TokenTree::Group(g) => {
                    assert_eq!(g.delimiter(), Delimiter::Brace);
                    let first = g.stream().into_iter().next().unwrap();
                    assert!(matches!(first, TokenTree::Group(ref inner) if inner.delimiter() == Delimiter::None));
                    assert_eq!(g.stream().into_iter().count(), 3);
                }
                _ => panic!("a converter is written as a group"),
            }
        }
        _ => panic!("expected an addition"),
    }
}
