use struct_migration::syntax::ParseError;
use struct_migration::version::DeriveVersion;

fn tokens(src: &str) -> proc_macro2::TokenStream {
    src.parse::<proc_macro2::TokenStream>().unwrap()
}

#[test]
fn explicit_version() {
    let d = DeriveVersion::parse(&tokens(r#""0.1""#)).unwrap();
    assert_eq!(d.version.as_deref(), Some("0.1"));
    assert_eq!(d.get_version(Some("9.9.9".to_string())), "0.1");
    assert_eq!(d.get_version(None), "0.1");
}

#[test]
fn package_version() {
    let d = DeriveVersion::parse(&tokens("")).unwrap();
    assert_eq!(d.version, None);
    assert_eq!(d.get_version(Some("1.2.3".to_string())), "1.2.3");
    assert_eq!(d.get_version(None), "0.0.0");
}

#[test]
fn refused_versions() {
    assert_eq!(DeriveVersion::parse(&tokens("1")).err(), Some(ParseError::ExpectedStringLiteral));
    assert_eq!(DeriveVersion::parse(&tokens(r#""a" + "b""#)).err(), Some(ParseError::ExpectedStringLiteral));
    assert_eq!(DeriveVersion::parse(&tokens(r#""a" "b""#)).err(), Some(ParseError::UnexpectedToken));
    assert_eq!(DeriveVersion::parse(&tokens("42 foo")).err(), Some(ParseError::ExpectedStringLiteral));
    assert_eq!(DeriveVersion::parse(&tokens(r#"("0.1")"#)).err(), Some(ParseError::ExpectedStringLiteral));
    assert_eq!(DeriveVersion::parse(&tokens(r#"b"0.1""#)).err(), Some(ParseError::ExpectedStringLiteral));
    assert_eq!(DeriveVersion::parse(&tokens("+")).err(), Some(ParseError::ExpectedExpression));
}

#[test]
fn version_copy_keeps_value() {
    let d = DeriveVersion::parse(&tokens(r#""2.0""#)).unwrap();
    let e = d.clone();
    assert_eq!(e.version.as_deref(), Some("2.0"));
}

#[test]
fn a_literal_in_an_invisible_group_is_no_literal() {
    let group = proc_macro2::Group::new(proc_macro2::Delimiter::None, tokens(r#""0.1""#));
    let input: proc_macro2::TokenStream = std::iter::once(proc_macro2::TokenTree::Group(group)).collect();
    assert_eq!(DeriveVersion::parse(&input).err(), Some(ParseError::ExpectedStringLiteral));
    let empty = proc_macro2::Group::new(proc_macro2::Delimiter::None, proc_macro2::TokenStream::new());
    let input: proc_macro2::TokenStream = std::iter::once(proc_macro2::TokenTree::Group(empty)).collect();
    assert_eq!(DeriveVersion::parse(&input).err(), Some(ParseError::ExpectedExpression));
}
