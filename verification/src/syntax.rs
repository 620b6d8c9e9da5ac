//! The pieces of syntax that the migration grammar is built from: punctuation,
//! groups, identifiers, string literals and type paths, read off a sequence of
//! tokens at a position.
//!
//! Identifiers, string literals, type paths, expressions and struct items are
//! recognised by `syn`; the trusted items below say what is known of it. The
//! tree each token holds is read as the token's model says (the invariant of
//! `Token`), so what `syn` makes of the trees of some tokens depends on their
//! models alone. An expression is read off a stream as it stands, invisible
//! groups included, since `syn` parses such a group as a grouped expression.

use vstd::prelude::*;
use crate::tokens::{copy_tokens, group_tokens_view, lemma_tokens_view_subrange, stream_trees_of, tokens_view, Delim, Token, TokenKind, TokenView, TreeView};

verus! {

broadcast use group_tokens_view;

#[verifier::external_type_specification]
#[verifier::external_body]
pub struct ExParseBuffer<'a>(syn::parse::ParseBuffer<'a>);

#[verifier::external_type_specification]
#[verifier::external_body]
pub struct ExSynError(syn::Error);

#[verifier::external_type_specification]
#[verifier::external_body]
pub struct ExTypePath(syn::TypePath);

#[verifier::external_type_specification]
#[verifier::external_body]
pub struct ExItemStruct(syn::ItemStruct);

#[verifier::external_type_specification]
#[verifier::external_body]
pub struct ExExpr(syn::Expr);

/// Why a piece of input was refused.
#[derive(Clone, Copy, Debug, PartialEq, Eq, Structural)]
pub enum ParseError {
    /// An identifier (not a keyword) was expected.
    ExpectedIdent,
    /// `:` was expected.
    ExpectedColon,
    /// `=>` was expected.
    ExpectedFatArrow,
    /// A type path was expected.
    ExpectedTypePath,
    /// A group in parentheses was expected.
    ExpectedParens,
    /// A group in braces was expected.
    ExpectedBraces,
    /// A group in brackets was expected.
    ExpectedBrackets,
    /// A string literal was expected.
    ExpectedStringLiteral,
    /// Tokens were left over where the input should have ended.
    UnexpectedToken,
    /// An expression was expected.
    ExpectedExpression,
    /// A struct item was expected.
    ExpectedStruct,
}

/// The words that `syn` refuses as identifiers: `_` and the keywords.
pub open spec fn is_keyword(text: Seq<char>) -> bool {
    ||| text == "_"@ || text == "abstract"@ || text == "as"@ || text == "async"@
    ||| text == "await"@ || text == "become"@ || text == "box"@ || text == "break"@
    ||| text == "const"@ || text == "continue"@ || text == "crate"@ || text == "do"@
    ||| text == "dyn"@ || text == "else"@ || text == "enum"@ || text == "extern"@
    ||| text == "false"@ || text == "final"@ || text == "fn"@ || text == "for"@
    ||| text == "if"@ || text == "impl"@ || text == "in"@ || text == "let"@
    ||| text == "loop"@ || text == "macro"@ || text == "match"@ || text == "mod"@
    ||| text == "move"@ || text == "mut"@ || text == "override"@ || text == "priv"@
    ||| text == "pub"@ || text == "ref"@ || text == "return"@ || text == "Self"@
    ||| text == "self"@ || text == "static"@ || text == "struct"@ || text == "super"@
    ||| text == "trait"@ || text == "true"@ || text == "try"@ || text == "type"@
    ||| text == "typeof"@ || text == "unsafe"@ || text == "unsized"@ || text == "use"@
    ||| text == "virtual"@ || text == "where"@ || text == "while"@ || text == "yield"@
}

/// The value of a string literal whose source text is `text`, as
/// `syn::LitStr::value` decodes it; `None` when the literal is not a string
/// literal.
pub uninterp spec fn string_literal_value(text: Seq<char>) -> Option<Seq<char>>;

/// How `syn::TypePath` parses a token sequence from its start: the number of
/// tokens left after the path; `None` when no type path starts there.
pub uninterp spec fn type_path_split(toks: Seq<TokenView>) -> Option<nat>;

/// How `syn::Expr` parses a sequence of trees from its start, invisible
/// groups kept as they stand: `None` when no expression starts there;
/// otherwise the number of trees left after it, and `Some(v)` when the
/// expression is a string literal of value `v`.
pub uninterp spec fn leading_expression(trees: Seq<TreeView>) -> Option<(nat, Option<Seq<char>>)>;

/// How the fields of a struct item are written.
pub enum StructShape {
    /// `struct S { a: A, .. }`
    Named,
    /// `struct S(A, ..);`
    Tuple,
    /// `struct S;`
    Unit,
}

/// A struct item as `syn` reads it, each part as `to_token_stream` prints
/// it: how many attributes it has; its visibility (`vis`); its name
/// (`ident.to_string()`); its generic parameters with their angle brackets
/// (`generics`, which prints no `where` clause) and its `where` clause
/// (`generics.where_clause`); how its fields are written; and its fields,
/// each with its name (`None` in a tuple struct) and the trees of its type
/// (`ty`).
pub struct StructReading {
    pub attributes: nat,
    pub visibility: Seq<TreeView>,
    pub name: Seq<char>,
    pub generics: Seq<TreeView>,
    pub where_clause: Seq<TreeView>,
    pub shape: StructShape,
    pub fields: Seq<(Option<Seq<char>>, Seq<TreeView>)>,
}

/// How a parsed `syn::ItemStruct` reads, as [`StructReading`] describes.
pub uninterp spec fn struct_reading(item: syn::ItemStruct) -> StructReading;

/// How `syn::ItemStruct` parses a whole token sequence: `None` when it is
/// not one struct item.
pub uninterp spec fn parsed_struct(toks: Seq<TokenView>) -> Option<StructReading>;

/// `syn::Ident`'s parse on one identifier token: it accepts the token unless
/// its text is `_` or a keyword.
#[verifier::external_body]
fn accepts_ident(tok: &Token) -> (r: bool)
    requires
        tok@ is Ident,
    ensures
        r == !is_keyword(tok@->Ident_0),
{
    syn::parse2::<syn::Ident>(proc_macro2::TokenStream::from(tok.raw().clone())).is_ok()
}

/// `syn::LitStr`'s parse on one literal token, then `LitStr::value`.
#[verifier::external_body]
fn literal_string(tok: &Token) -> (r: Option<String>)
    requires
        tok@ is Literal,
    ensures
        match r {
            Some(v) => string_literal_value(tok@->Literal_0) == Some(v@),
            None => string_literal_value(tok@->Literal_0) is None,
        },
{
    syn::parse2::<syn::LitStr>(proc_macro2::TokenStream::from(tok.raw().clone())).ok().map(|l| l.value())
}

/// `ParseBuffer::parse::<syn::TypePath>`. Nothing is stated of it: its
/// effect is seen through [`split_type_path`].
#[verifier::external_body]
fn next_type_path(input: &syn::parse::ParseBuffer) -> Result<syn::TypePath, syn::Error> {
    input.parse()
}

/// `ParseBuffer::parse::<proc_macro2::TokenStream>`, which takes all the
/// tokens left. Nothing is stated of it: its effect is seen through
/// [`split_type_path`].
#[verifier::external_body]
fn rest_of_input(input: &syn::parse::ParseBuffer) -> Result<proc_macro2::TokenStream, syn::Error> {
    input.parse()
}

/// A type path, skipped; then whatever follows it.
fn after_type_path(input: &syn::parse::ParseBuffer) -> Result<proc_macro2::TokenStream, syn::Error> {
    let _path = next_type_path(input)?;
    rest_of_input(input)
}

/// The last token of a type path: an identifier, or the `>` that closes
/// generic arguments.
pub open spec fn ends_type_path(t: TokenView) -> bool {
    t is Ident || (t is Punct && t->Punct_0 == '>')
}

/// `syn::parse::Parser::parse2` with [`after_type_path`] on the trees of
/// `toks`: on success, the number of trees left after the type path. The
/// trees left are the last ones given, fewer than all of them; a type path
/// ends with a segment's identifier or with the `>` of its generic arguments
/// (`PathSegment::parse_helper`, `AngleBracketedGenericArguments::do_parse`).
#[verifier::external_body]
fn split_type_path(toks: &[Token]) -> (r: Option<usize>)
    ensures
        match r {
            Some(rest) => type_path_split(tokens_view(toks@)) == Some(rest as nat) && rest < toks@.len()
                && ends_type_path(tokens_view(toks@)[toks@.len() - rest - 1]),
            None => type_path_split(tokens_view(toks@)) is None,
        },
{
    let stream: proc_macro2::TokenStream = toks.iter().map(|t| t.raw().clone()).collect();
    syn::parse::Parser::parse2(after_type_path, stream).ok().map(|rest| rest.into_iter().count())
}

/// `ParseBuffer::parse::<syn::Expr>`. Nothing is stated of it: its effect
/// is seen through [`split_expression`].
#[verifier::external_body]
fn next_expression(input: &syn::parse::ParseBuffer) -> Result<syn::Expr, syn::Error> {
    input.parse()
}

/// An expression, then whatever follows it.
fn expression_then_rest(input: &syn::parse::ParseBuffer) -> Result<(syn::Expr, proc_macro2::TokenStream), syn::Error> {
    let expression = next_expression(input)?;
    let rest = rest_of_input(input)?;
    Ok((expression, rest))
}

/// `syn::parse::Parser::parse2` with [`expression_then_rest`] on a clone of
/// `stream`: on success, the number of trees left after the expression, and
/// the value (`LitStr::value`) of a string literal expression.
#[verifier::external_body]
pub(crate) fn split_expression(stream: &proc_macro2::TokenStream) -> (r: Option<(usize, Option<String>)>)
    ensures
        match r {
            Some((rest, Some(v))) => leading_expression(stream_trees_of(*stream)) == Some((rest as nat, Some(v@))),
            Some((rest, None)) => leading_expression(stream_trees_of(*stream)) == Some((rest as nat, None::<Seq<char>>)),
            None => leading_expression(stream_trees_of(*stream)) is None,
        },
{
    match syn::parse::Parser::parse2(expression_then_rest, stream.clone()) {
        Ok((syn::Expr::Lit(syn::ExprLit { lit: syn::Lit::Str(s), .. }), rest)) => Some((rest.into_iter().count(), Some(s.value()))),
        Ok((_, rest)) => Some((rest.into_iter().count(), None)),
        Err(_) => None,
    }
}

/// `syn::parse2::<syn::ItemStruct>` on the trees of `toks`. Its attributes
/// are read while the input starts with `#` (`Attribute::parse_outer`), so a
/// struct item that does not start with `#` has none.
#[verifier::external_body]
pub(crate) fn parse_struct_item(toks: &[Token]) -> (r: Option<syn::ItemStruct>)
    ensures
        match r {
            Some(item) => parsed_struct(tokens_view(toks@)) == Some(struct_reading(item))
                && (struct_reading(item).attributes == 0 <==> !punct_at(tokens_view(toks@), 0, '#')),
            None => parsed_struct(tokens_view(toks@)) is None,
        },
{
    syn::parse2::<syn::ItemStruct>(toks.iter().map(|t| t.raw().clone()).collect()).ok()
}

/// A type path of the input: the tokens it was written with. Two types are
/// the same when they are written with the same tokens.
pub struct TypeRef {
    pub tokens: Vec<Token>,
}

/// The model of a [`TypeRef`].
pub struct TypeRefView {
    pub tokens: Seq<TokenView>,
}

impl View for TypeRef {
    type V = TypeRefView;

    open spec fn view(&self) -> TypeRefView {
        TypeRefView { tokens: tokens_view(self.tokens@) }
    }
}

impl TypeRef {
    /// A copy with the same model.
    pub fn copy(&self) -> (r: TypeRef)
        ensures
            r@ == self@,
    {
        TypeRef { tokens: copy_tokens(self.tokens.as_slice()) }
    }
}

impl Clone for TypeRef {
    fn clone(&self) -> (r: Self)
        ensures
            r@ == self@,
    {
        self.copy()
    }
}

/// The token at `p` is the punctuation character `c`, joined or not.
pub open spec fn punct_at(s: Seq<TokenView>, p: int, c: char) -> bool {
    0 <= p < s.len() && s[p] is Punct && s[p]->Punct_0 == c
}

/// `=>` starts at `p`: a `=` joined to a following `>`.
pub open spec fn fat_arrow_at(s: Seq<TokenView>, p: int) -> bool {
    &&& 0 <= p && p + 1 < s.len()
    &&& s[p] == TokenView::Punct('=', true)
    &&& s[p + 1] is Punct && s[p + 1]->Punct_0 == '>'
}

/// The token at `p` is a group with delimiter `d`.
pub open spec fn group_at(s: Seq<TokenView>, p: int, d: Delim) -> bool {
    0 <= p < s.len() && s[p] is Group && s[p]->Group_0 == d
}

/// The tokens inside a group.
pub open spec fn group_inner(t: TokenView) -> Seq<TokenView> {
    match t {
        TokenView::Group(_, inner) => inner,
        _ => Seq::empty(),
    }
}

/// Where the token after the one at `p` starts; a lifetime (`'` joined to an
/// identifier) counts as one token.
pub open spec fn next_start(s: Seq<TokenView>, p: int) -> int {
    if p + 1 < s.len() && s[p] == TokenView::Punct('\'', true) && s[p + 1] is Ident {
        p + 2
    } else {
        p + 1
    }
}

/// A `:` that stands alone at `p`: not the first half of a `::`.
pub open spec fn lone_colon_at(s: Seq<TokenView>, p: int) -> bool {
    punct_at(s, p, ':') && !(s[p] == TokenView::Punct(':', true) && punct_at(s, p + 1, ':'))
}

/// The second token from `p` on is a `:` that does not begin a `::`, so the
/// first one names a field rather than beginning a path.
pub open spec fn colon_second(s: Seq<TokenView>, p: int) -> bool {
    0 <= p < s.len() && lone_colon_at(s, next_start(s, p))
}

/// The identifier at `p`, if there is one that is not a keyword.
pub open spec fn ident_at(s: Seq<TokenView>, p: int) -> Option<Seq<char>> {
    if 0 <= p < s.len() && s[p] is Ident && !is_keyword(s[p]->Ident_0) {
        Some(s[p]->Ident_0)
    } else {
        None
    }
}

/// The value of the string literal at `p`, if there is one.
pub open spec fn string_at(s: Seq<TokenView>, p: int) -> Option<Seq<char>> {
    if 0 <= p < s.len() && s[p] is Literal {
        string_literal_value(s[p]->Literal_0)
    } else {
        None
    }
}

/// The type path that starts at `p`, and where it ends.
pub open spec fn type_at(s: Seq<TokenView>, p: int) -> Option<(TypeRefView, int)> {
    if 0 <= p <= s.len() {
        match type_path_split(s.subrange(p, s.len() as int)) {
            Some(rest) => if rest < s.len() - p && ends_type_path(s[s.len() - rest - 1]) {
                Some((TypeRefView { tokens: s.subrange(p, s.len() - rest) }, s.len() - rest))
            } else {
                None
            },
            None => None,
        }
    } else {
        None
    }
}

/// Whether the token at `p` is the punctuation character `c`.
pub fn is_punct(toks: &[Token], p: usize, c: char) -> (r: bool)
    ensures
        r == punct_at(tokens_view(toks@), p as int, c),
{
    if p < toks.len() {
        match toks[p].kind() {
            TokenKind::Punct(ch, _) => *ch == c,
            _ => false,
        }
    } else {
        false
    }
}

/// Whether `=>` starts at `p`.
pub fn is_fat_arrow(toks: &[Token], p: usize) -> (r: bool)
    ensures
        r == fat_arrow_at(tokens_view(toks@), p as int),
{
    if p < toks.len() && toks.len() - p >= 2 {
        let first = match toks[p].kind() {
            TokenKind::Punct(ch, joint) => *ch == '=' && *joint,
            _ => false,
        };
        first && is_punct(toks, p + 1, '>')
    } else {
        false
    }
}

/// Whether the token at `p` is a group with delimiter `d`.
pub fn is_group(toks: &[Token], p: usize, d: Delim) -> (r: bool)
    ensures
        r == group_at(tokens_view(toks@), p as int, d),
{
    if p < toks.len() {
        match toks[p].kind() {
            TokenKind::Group(dd, _) => *dd == d,
            _ => false,
        }
    } else {
        false
    }
}

/// The tokens inside the group at `p`.
pub fn group_tokens(toks: &[Token], p: usize) -> (r: &[Token])
    requires
        p < toks@.len(),
        tokens_view(toks@)[p as int] is Group,
    ensures
        tokens_view(r@) == group_inner(tokens_view(toks@)[p as int]),
{
    match toks[p].kind() {
        TokenKind::Group(_, inner) => inner.as_slice(),
        _ => toks,
    }
}

/// Whether the second token from `p` on is a `:`.
pub fn is_colon_second(toks: &[Token], p: usize) -> (r: bool)
    ensures
        r == colon_second(tokens_view(toks@), p as int),
{
    if p >= toks.len() {
        return false;
    }
    let lifetime = toks.len() - p >= 2 && match toks[p].kind() {
        TokenKind::Punct(ch, joint) => *ch == '\'' && *joint,
        _ => false,
    } && match toks[p + 1].kind() {
        TokenKind::Ident(_) => true,
        _ => false,
    };
    let q = if lifetime { p + 2 } else { p + 1 };
    if !is_punct(toks, q, ':') {
        return false;
    }
    let joined = match toks[q].kind() {
        TokenKind::Punct(_, joint) => *joint,
        _ => false,
    };
    !(joined && is_punct(toks, q + 1, ':'))
}

/// The identifier at `p`, if there is one that is not a keyword.
pub fn read_ident(toks: &[Token], p: usize) -> (r: Option<String>)
    ensures
        match r {
            Some(t) => ident_at(tokens_view(toks@), p as int) == Some(t@),
            None => ident_at(tokens_view(toks@), p as int) is None,
        },
{
    if p < toks.len() {
        match toks[p].kind() {
            TokenKind::Ident(t) => if accepts_ident(&toks[p]) {
                Some(t.clone())
            } else {
                None
            },
            _ => None,
        }
    } else {
        None
    }
}

/// The value of the string literal at `p`, if there is one.
pub fn read_string(toks: &[Token], p: usize) -> (r: Option<String>)
    ensures
        match r {
            Some(v) => string_at(tokens_view(toks@), p as int) == Some(v@),
            None => string_at(tokens_view(toks@), p as int) is None,
        },
{
    if p < toks.len() {
        match toks[p].kind() {
            TokenKind::Literal(_) => literal_string(&toks[p]),
            _ => None,
        }
    } else {
        None
    }
}

/// The type path that starts at `p`, and where it ends.
pub fn read_type(toks: &[Token], p: usize) -> (r: Option<(TypeRef, usize)>)
    ensures
        match r {
            Some((t, q)) => type_at(tokens_view(toks@), p as int) == Some((t@, q as int)),
            None => type_at(tokens_view(toks@), p as int) is None,
        },
{
    if p > toks.len() {
        return None;
    }
    let suffix = vstd::slice::slice_subrange(toks, p, toks.len());
    proof {
        lemma_tokens_view_subrange(toks@, p as int, toks@.len() as int);
    }
    match split_type_path(suffix) {
        Some(rest) => if rest < toks.len() - p {
            let end = toks.len() - rest;
            let tokens = copy_tokens(vstd::slice::slice_subrange(toks, p, end));
            proof {
                lemma_tokens_view_subrange(toks@, p as int, end as int);
            }
            Some((TypeRef { tokens }, end))
        } else {
            None
        },
        None => None,
    }
}

} // verus!
