use proc_macro2::{Delimiter, Group, TokenStream, TokenTree};
use struct_migration::tokens::{copy_tokens, read_tokens, Delim, TokenKind};

#[test]
fn token_kinds() {
    let toks = read_tokens("a => 'x \"s\" (1)".parse::<TokenStream>().unwrap()).unwrap();
    assert_eq!(toks.len(), 7);
    assert!(matches!(toks[0].kind(), TokenKind::Ident(s) if s == "a"));
    assert!(matches!(toks[1].kind(), TokenKind::Punct('=', true)));
    assert!(matches!(toks[2].kind(), TokenKind::Punct('>', false)));
    assert!(matches!(toks[3].kind(), TokenKind::Punct('\'', true)));
    assert!(matches!(toks[5].kind(), TokenKind::Literal(s) if s == "\"s\""));
    match toks[6].kind() {
        TokenKind::Group(Delim::Paren, inner) => assert_eq!(inner.len(), 1),
        _ => panic!("expected a group"),
    }
}

#[test]
fn invisible_groups_are_flattened() {
    let inner: TokenStream = "x y".parse().unwrap();
    let invisible = TokenTree::Group(Group::new(Delimiter::None, inner));
    let outer = TokenTree::Group(Group::new(Delimiter::Brace, TokenStream::from(invisible.clone())));
    let mut stream = TokenStream::from(invisible);
    stream.extend(TokenStream::from(outer));
    let toks = read_tokens(stream).unwrap();
    assert_eq!(toks.len(), 3);
    match toks[2].kind() {
        TokenKind::Group(Delim::Brace, inner) => {
            assert_eq!(inner.len(), 2);
            assert_eq!(toks[2].raw().to_string().replace(' ', ""), "{xy}");
        }
        _ => panic!("expected a group"),
    }
    let copies = copy_tokens(&toks);
    assert_eq!(copies.len(), 3);
    assert_eq!(copies[2].raw().to_string(), toks[2].raw().to_string());
}

#[test]
fn groups_holding_invisible_groups_deeper_down_are_rebuilt() {
    let pair: TokenStream = "u8 , u16".parse().unwrap();
    let invisible = TokenTree::Group(Group::new(Delimiter::None, pair));
    let paren = TokenTree::Group(Group::new(Delimiter::Parenthesis, TokenStream::from(invisible)));
    let mut inner = TokenStream::from(paren);
    inner.extend("; 2".parse::<TokenStream>().unwrap());
    let bracket = TokenTree::Group(Group::new(Delimiter::Bracket, inner));
    let toks = read_tokens(TokenStream::from(bracket)).unwrap();
    assert_eq!(toks.len(), 1);
    let printed = toks[0].raw().to_string();
    let reparsed: TokenStream = printed.parse().unwrap();
    assert!(syn::parse2::<syn::Type>(TokenStream::from(toks[0].raw().clone())).is_ok());
    assert_eq!(reparsed.to_string(), printed);
}
