use struct_migration::comment::MigrationComment;
use struct_migration::field::MigrationField;
use struct_migration::migration::Migration;
use struct_migration::syntax::ParseError;
use struct_migration::tokens::{read_tokens, Token, TokenKind};

fn text(t: &struct_migration::syntax::TypeRef) -> String {
    t.tokens.iter().map(|x| x.raw().clone()).collect::<proc_macro2::TokenStream>().to_string()
}

fn tokens(src: &str) -> Vec<Token> {
    read_tokens(src.parse::<proc_macro2::TokenStream>().unwrap()).unwrap()
}

#[test]
fn step_with_changes() {
    let toks = tokens(r#""0.1" => "0.2" { + a: u8, - b: u16 c: u8 => d: u8, }"#);
    let (step, end) = MigrationComment::parse(&toks, 0).unwrap();
    assert_eq!(end, 5);
    assert_eq!(step.from, "0.1");
    assert_eq!(step.to, "0.2");
    assert_eq!(step.changes.len(), 3);
    assert!(matches!(step.changes[0], MigrationField::Add { .. }));
    assert!(matches!(step.changes[1], MigrationField::Remove { .. }));
    assert!(matches!(step.changes[2], MigrationField::Rename { .. }));
}

#[test]
fn step_without_changes() {
    let toks = tokens(r#""1" => "2""#);
    let step = MigrationComment::parse_all(&toks).unwrap();
    assert_eq!((step.from.as_str(), step.to.as_str()), ("1", "2"));
    assert!(step.changes.is_empty());
}

#[test]
fn step_literal_values_are_decoded() {
    let toks = tokens(r#""a\tb" => r"c\d""#);
    let step = MigrationComment::parse_all(&toks).unwrap();
    assert_eq!(step.from, "a\tb");
    assert_eq!(step.to, "c\\d");
}

#[test]
fn step_refusals() {
    assert_eq!(MigrationComment::parse_all(&tokens(r#"1 => "2""#)).err(), Some(ParseError::ExpectedStringLiteral));
    assert_eq!(MigrationComment::parse_all(&tokens(r#""1" = "2""#)).err(), Some(ParseError::ExpectedFatArrow));
    assert_eq!(MigrationComment::parse_all(&tokens(r#""1" => b"2""#)).err(), Some(ParseError::ExpectedStringLiteral));
    assert_eq!(MigrationComment::parse_all(&tokens(r#""1" => "2" extra"#)).err(), Some(ParseError::UnexpectedToken));
    assert_eq!(MigrationComment::parse_all(&tokens(r#""1" => "2" { + }"#)).err(), Some(ParseError::ExpectedIdent));
}

#[test]
fn struct_with_history() {
    let src = r#"
        #[migration("0.1" => "0.2" { + a: u8 })]
        #[derive(Clone, Debug)]
        #[migration("0.2" => "0.3")]
        #[doc = "text"]
        pub struct Config { a: u8, b: String }
    "#;
    let m = Migration::parse(&tokens(src)).unwrap();
    assert_eq!(m.versions.len(), 2);
    assert_eq!(m.versions[0].to, "0.2");
    assert_eq!(m.versions[1].from, "0.2");
    assert_eq!(m.extra_macros.len(), 2);
    assert_eq!(m.extra_macros[0].0, "derive");
    assert_eq!(m.extra_macros[0].1.len(), 1);
    assert!(matches!(m.extra_macros[0].1[0].kind(), TokenKind::Group(..)));
    assert_eq!(m.extra_macros[1].0, "doc");
    assert_eq!(m.extra_macros[1].1.len(), 2);
    assert_eq!(m.struct_data.ident.to_string(), "Config");
}

#[test]
fn struct_refusals() {
    let parse = |src: &str| Migration::parse(&tokens(src)).err();
    assert_eq!(parse("# derive struct A;"), Some(ParseError::ExpectedBrackets));
    assert_eq!(parse("#[1] struct A;"), Some(ParseError::ExpectedIdent));
    assert_eq!(parse("#[migration] struct A;"), Some(ParseError::ExpectedParens));
    assert_eq!(parse(r#"#[migration("1" => "2") more] struct A;"#), Some(ParseError::UnexpectedToken));
    assert_eq!(parse(r#"#[migration("1" => "2" extra)] struct A;"#), Some(ParseError::UnexpectedToken));
    assert_eq!(parse("#[derive(Clone)] enum A { X }"), Some(ParseError::ExpectedStruct));
    assert_eq!(parse("struct A; struct B;"), Some(ParseError::ExpectedStruct));
}

#[test]
fn copies_keep_what_was_parsed() {
    let src = r#"#[migration("0.1" => "0.2" { + a: Vec<u8> { vec![1] } })] #[serde(default)] struct S { a: Vec<u8> }"#;
    let m = Migration::parse(&tokens(src)).unwrap();
    let c = m.clone();
    assert_eq!(c.versions.len(), 1);
    assert_eq!(c.versions[0].from, "0.1");
    assert_eq!(c.extra_macros[0].0, "serde");
    assert_eq!(c.struct_data.ident.to_string(), "S");
    match &c.versions[0].changes[0] {
        MigrationField::Add { value, converter } => {
            assert_eq!(text(&value.1), "Vec < u8 >");
            assert_eq!(value.1.tokens.len(), 4);
            match converter.as_ref().unwrap().kind() {
                TokenKind::Group(_, inner) => assert_eq!(inner.len(), 3),
                _ => panic!("a converter is a group"),
            }
        }
        _ => panic!("expected an addition"),
    }
}

#[test]
fn attributes_leave_the_struct_bare() {
    let m = Migration::parse(&tokens("/// Hi\n#[derive(Clone)] #[migration(\"0.1\" => \"0.2\")] struct S { a: i32 }")).unwrap();
    assert!(m.struct_data.attrs.is_empty());
    assert_eq!(m.extra_macros.len(), 2);
    assert_eq!(m.extra_macros[0].0, "doc");
    assert_eq!(m.extra_macros[1].0, "derive");
    assert_eq!(m.versions.len(), 1);
    assert_eq!(m.struct_data.fields.len(), 1);
    let plain = Migration::parse(&tokens("struct S;")).unwrap();
    assert!(plain.versions.is_empty() && plain.extra_macros.is_empty());
    assert_eq!(plain.struct_data.ident.to_string(), "S");
}
