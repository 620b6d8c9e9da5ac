//! One change of a migration step: a field added, removed, renamed or copied.
//!
//! The forms, inside the braces of a `#[migration(..)]` attribute:
//!
//! | form                                  | change |
//! |---------------------------------------|--------|
//! | `+ a: T` / `+ a: T { .. }`            | add `a`, from `T::default()` or from the block |
//! | `- a: T`                              | remove `a` |
//! | `+ a: T => b: U` (optionally `{ .. }`)| copy `a` into a new field `b` |
//! | `+ a => b: T` (optionally `{ .. }`)   | copy `a` into `b`, both of type `T` |
//! | `+ (a: T, b: U) => c: V { .. }`       | compute a new field `c` from copies of `a` and `b` |
//! | `a: T => b: U` (optionally `{ .. }`)  | rename `a` to `b` |
//! | `a: T => U` (optionally `{ .. }`)     | change the type of `a` |
//! | `a => b: T` (optionally `{ .. }`)     | rename `a` to `b`, keeping type `T` |
//! | `(a: T, b: U) => c: V { .. }`         | replace `a` and `b` by `c`, computed from them |

use vstd::prelude::*;
use crate::tokens::{copy_tokens, group_tokens_view, lemma_tokens_view_push, tokens_view, Delim, Token, TokenView};
use crate::syntax::{
    colon_second, fat_arrow_at, group_at, group_inner, group_tokens, ident_at, is_colon_second,
    is_fat_arrow, is_group, is_punct, punct_at, read_ident, read_type, type_at, ParseError, TypeRef,
    TypeRefView,
};

verus! {

broadcast use group_tokens_view;

/// A field of a struct: its name and its type.
pub type NamedType = (String, TypeRef);

/// The model of a [`NamedType`].
pub type NamedTypeView = (Seq<char>, TypeRefView);

pub open spec fn named_view(f: NamedType) -> NamedTypeView {
    (f.0@, f.1@)
}

pub open spec fn named_views(v: Seq<NamedType>) -> Seq<NamedTypeView> {
    v.map_values(|f: NamedType| named_view(f))
}

/// The model of a converter: the tokens inside its braces.
pub open spec fn converter_view(c: Option<Token>) -> Option<Seq<TokenView>> {
    match c {
        Some(t) => Some(group_inner(t@)),
        None => None,
    }
}

/// One change between two versions of a struct. A converter is the group in
/// braces, as it was written, whose code computes the new field; its model
/// is the tokens inside the braces.
pub enum MigrationField {
    Add { value: NamedType, converter: Option<Token> },
    Remove { value: NamedType },
    Rename { source: Vec<NamedType>, target: NamedType, converter: Option<Token> },
    Copy { source: Vec<NamedType>, target: NamedType, converter: Option<Token> },
}

/// The model of a [`MigrationField`].
pub enum MigrationFieldView {
    Add { value: NamedTypeView, converter: Option<Seq<TokenView>> },
    Remove { value: NamedTypeView },
    Rename { source: Seq<NamedTypeView>, target: NamedTypeView, converter: Option<Seq<TokenView>> },
    Copy { source: Seq<NamedTypeView>, target: NamedTypeView, converter: Option<Seq<TokenView>> },
}

impl View for MigrationField {
    type V = MigrationFieldView;

    open spec fn view(&self) -> MigrationFieldView {
        match self {
            MigrationField::Add { value, converter } => MigrationFieldView::Add {
                value: named_view(*value),
                converter: converter_view(*converter),
            },
            MigrationField::Remove { value } => MigrationFieldView::Remove { value: named_view(*value) },
            MigrationField::Rename { source, target, converter } => MigrationFieldView::Rename {
                source: named_views(source@),
                target: named_view(*target),
                converter: converter_view(*converter),
            },
            MigrationField::Copy { source, target, converter } => MigrationFieldView::Copy {
                source: named_views(source@),
                target: named_view(*target),
                converter: converter_view(*converter),
            },
        }
    }
}

fn copy_named(v: &Vec<NamedType>) -> (r: Vec<NamedType>)
    ensures
        named_views(r@) == named_views(v@),
{
    let mut out: Vec<NamedType> = Vec::new();
    let mut i: usize = 0;
    while i < v.len()
        invariant
            i <= v@.len(),
            named_views(out@) == named_views(v@.subrange(0, i as int)),
        decreases v@.len() - i,
    {
        let f = (v[i].0.clone(), v[i].1.copy());
        let ghost before = named_views(out@);
        assert(named_view(f) == named_view(v@[i as int]));
        out.push(f);
        assert(named_views(out@) =~= before.push(named_view(f)));
        assert(named_views(v@.subrange(0, i + 1)) =~= named_views(v@.subrange(0, i as int)).push(named_view(v@[i as int])));
        i += 1;
    }
    assert(v@.subrange(0, v@.len() as int) =~= v@);
    out
}

fn copy_converter(c: &Option<Token>) -> (r: Option<Token>)
    ensures
        converter_view(r) == converter_view(*c),
{
    match c {
        Some(t) => Some(t.copy()),
        None => None,
    }
}

/// The group at `q`, copied.
fn block_at(toks: &[Token], q: usize) -> (r: Token)
    requires
        q < toks@.len(),
    ensures
        r@ == tokens_view(toks@)[q as int],
{
    proof {
        crate::tokens::lemma_tokens_view(toks@);
    }
    toks[q].copy()
}

impl Clone for MigrationField {
    fn clone(&self) -> (r: Self)
        ensures
            r@ == self@,
    {
        match self {
            MigrationField::Add { value, converter } => MigrationField::Add {
                value: (value.0.clone(), value.1.copy()),
                converter: copy_converter(converter),
            },
            MigrationField::Remove { value } => MigrationField::Remove { value: (value.0.clone(), value.1.copy()) },
            MigrationField::Rename { source, target, converter } => MigrationField::Rename {
                source: copy_named(source),
                target: (target.0.clone(), target.1.copy()),
                converter: copy_converter(converter),
            },
            MigrationField::Copy { source, target, converter } => MigrationField::Copy {
                source: copy_named(source),
                target: (target.0.clone(), target.1.copy()),
                converter: copy_converter(converter),
            },
        }
    }
}

/// `name: Type` at `p`, and where it ends.
pub open spec fn named_type_at(s: Seq<TokenView>, p: int) -> Result<(NamedTypeView, int), ParseError> {
    match ident_at(s, p) {
        None => Err(ParseError::ExpectedIdent),
        Some(k) => if !punct_at(s, p + 1, ':') {
            Err(ParseError::ExpectedColon)
        } else {
            match type_at(s, p + 2) {
                None => Err(ParseError::ExpectedTypePath),
                Some((t, q)) => Ok(((k, t), q)),
            }
        },
    }
}

/// An optional `{ .. }` at `q`: its tokens, and where the input goes on.
pub open spec fn block_after(s: Seq<TokenView>, q: int) -> (Option<Seq<TokenView>>, int) {
    if group_at(s, q, Delim::Brace) {
        (Some(group_inner(s[q])), q + 1)
    } else {
        (None, q)
    }
}

/// The fields `a: T, b: U, ..` from `p` to the end of `c`; the commas
/// between them may be left out.
pub open spec fn source_list(c: Seq<TokenView>, p: int) -> Result<Seq<NamedTypeView>, ParseError>
    decreases c.len() - p,
{
    if p < 0 || p >= c.len() {
        Ok(Seq::empty())
    } else {
        match named_type_at(c, p) {
            Err(e) => Err(e),
            Ok((f, q)) => {
                let next = if punct_at(c, q, ',') { q + 1 } else { q };
                match source_list(c, next) {
                    Err(e) => Err(e),
                    Ok(rest) => Ok(seq![f] + rest),
                }
            },
        }
    }
}

/// `(a: T, ..) => c: V { .. }`, the group at `p`: a copy when `copy` holds,
/// a rename otherwise.
pub open spec fn sources_form(s: Seq<TokenView>, p: int, copy: bool) -> Result<(MigrationFieldView, int), ParseError> {
    match source_list(group_inner(s[p]), 0) {
        Err(e) => Err(e),
        Ok(source) => if !fat_arrow_at(s, p + 1) {
            Err(ParseError::ExpectedFatArrow)
        } else {
            match named_type_at(s, p + 3) {
                Err(e) => Err(e),
                Ok((target, q)) => if !group_at(s, q, Delim::Brace) {
                    Err(ParseError::ExpectedBraces)
                } else if copy {
                    Ok((MigrationFieldView::Copy { source, target, converter: Some(group_inner(s[q])) }, q + 1))
                } else {
                    Ok((MigrationFieldView::Rename { source, target, converter: Some(group_inner(s[q])) }, q + 1))
                },
            }
        },
    }
}

/// What follows a `+` that ends at `p`.
pub open spec fn plus_form(s: Seq<TokenView>, p: int) -> Result<(MigrationFieldView, int), ParseError> {
    if group_at(s, p, Delim::Paren) {
        sources_form(s, p, true)
    } else {
        match ident_at(s, p) {
            None => Err(ParseError::ExpectedIdent),
            Some(k) => if punct_at(s, p + 1, ':') {
                match type_at(s, p + 2) {
                    None => Err(ParseError::ExpectedTypePath),
                    Some((ty, q)) => if fat_arrow_at(s, q) {
                        match named_type_at(s, q + 2) {
                            Err(e) => Err(e),
                            Ok((target, r)) => Ok((
                                MigrationFieldView::Copy {
                                    source: seq![(k, ty)],
                                    target,
                                    converter: block_after(s, r).0,
                                },
                                block_after(s, r).1,
                            )),
                        }
                    } else {
                        Ok((MigrationFieldView::Add { value: (k, ty), converter: block_after(s, q).0 }, block_after(s, q).1))
                    },
                }
            } else if !fat_arrow_at(s, p + 1) {
                Err(ParseError::ExpectedFatArrow)
            } else {
                match named_type_at(s, p + 3) {
                    Err(e) => Err(e),
                    Ok(((t, ty), r)) => Ok((
                        MigrationFieldView::Copy {
                            source: seq![(k, ty)],
                            target: (t, ty),
                            converter: block_after(s, r).0,
                        },
                        block_after(s, r).1,
                    )),
                }
            },
        }
    }
}

/// A rename written without a leading `+` or group, at `p`.
pub open spec fn rename_form(s: Seq<TokenView>, p: int) -> Result<(MigrationFieldView, int), ParseError> {
    match ident_at(s, p) {
        None => Err(ParseError::ExpectedIdent),
        Some(k) => if punct_at(s, p + 1, ':') {
            match type_at(s, p + 2) {
                None => Err(ParseError::ExpectedTypePath),
                Some((ty, q)) => if !fat_arrow_at(s, q) {
                    Err(ParseError::ExpectedFatArrow)
                } else if colon_second(s, q + 2) {
                    match named_type_at(s, q + 2) {
                        Err(e) => Err(e),
                        Ok((target, r)) => Ok((
                            MigrationFieldView::Rename {
                                source: seq![(k, ty)],
                                target,
                                converter: block_after(s, r).0,
                            },
                            block_after(s, r).1,
                        )),
                    }
                } else {
                    match type_at(s, q + 2) {
                        None => Err(ParseError::ExpectedTypePath),
                        Some((new_ty, r)) => Ok((
                            MigrationFieldView::Rename {
                                source: seq![(k, ty)],
                                target: (k, new_ty),
                                converter: block_after(s, r).0,
                            },
                            block_after(s, r).1,
                        )),
                    }
                },
            }
        } else if !fat_arrow_at(s, p + 1) {
            Err(ParseError::ExpectedFatArrow)
        } else {
            match named_type_at(s, p + 3) {
                Err(e) => Err(e),
                Ok(((t, ty), r)) => Ok((
                    MigrationFieldView::Rename {
                        source: seq![(k, ty)],
                        target: (t, ty),
                        converter: block_after(s, r).0,
                    },
                    block_after(s, r).1,
                )),
            }
        },
    }
}

/// The change that starts at `p`, and where it ends.
pub open spec fn field_at(s: Seq<TokenView>, p: int) -> Result<(MigrationFieldView, int), ParseError> {
    if punct_at(s, p, '+') {
        plus_form(s, p + 1)
    } else if punct_at(s, p, '-') {
        match named_type_at(s, p + 1) {
            Err(e) => Err(e),
            Ok((value, q)) => Ok((MigrationFieldView::Remove { value }, q)),
        }
    } else if group_at(s, p, Delim::Paren) {
        sources_form(s, p, false)
    } else {
        rename_form(s, p)
    }
}

/// Every change takes up at least one token.
pub proof fn lemma_field_progress(s: Seq<TokenView>, p: int)
    ensures
        field_at(s, p) matches Ok((_, q)) ==> q > p,
{
}

/// The converter of a change, if it has one.
pub open spec fn converter_of(f: MigrationFieldView) -> Option<Seq<TokenView>> {
    match f {
        MigrationFieldView::Add { converter, .. } => converter,
        MigrationFieldView::Remove { .. } => None,
        MigrationFieldView::Rename { converter, .. } => converter,
        MigrationFieldView::Copy { converter, .. } => converter,
    }
}

/// The law of a change's form. A change that starts with `+` adds or copies,
/// one that starts with `-` removes, and any other renames. A change has a
/// converter exactly when the tokens it takes end with a group in braces,
/// and then the converter is what that group holds; changes written with
/// several sources in parentheses always have one.
pub proof fn lemma_change_form(s: Seq<TokenView>, p: int)
    ensures
        field_at(s, p) matches Ok((f, q)) ==> {
            &&& p < q
            &&& (f is Add || f is Copy) == punct_at(s, p, '+')
            &&& f is Remove == punct_at(s, p, '-')
            &&& f is Rename == (!punct_at(s, p, '+') && !punct_at(s, p, '-'))
            &&& converter_of(f) == if group_at(s, q - 1, Delim::Brace) { Some(group_inner(s[q - 1])) } else { None::<Seq<TokenView>> }
            &&& (group_at(s, p, Delim::Paren) || (punct_at(s, p, '+') && group_at(s, p + 1, Delim::Paren))) ==> converter_of(f) is Some
        },
{
}

/// How a form with several sources reads from the group at `g` on, checked
/// against its parts: the sources are the fields listed in the group, the
/// target is exactly the name and type written after `=>`, and the converter
/// is the block that follows it, where the change ends.
pub open spec fn sources_parts(s: Seq<TokenView>, g: int, source: Seq<NamedTypeView>, target: NamedTypeView, converter: Option<Seq<TokenView>>, end: int) -> bool {
    &&& source_list(group_inner(s[g]), 0) == Ok::<Seq<NamedTypeView>, ParseError>(source)
    &&& fat_arrow_at(s, g + 1)
    &&& match named_type_at(s, g + 3) {
        Ok((t, q)) => t == target && group_at(s, q, Delim::Brace) && converter == Some(group_inner(s[q])) && end == q + 1,
        Err(_) => false,
    }
}

/// Whether every part of a form with several sources is there, from the
/// group at `g` on.
pub open spec fn sources_complete(s: Seq<TokenView>, g: int) -> bool {
    &&& source_list(group_inner(s[g]), 0) is Ok
    &&& fat_arrow_at(s, g + 1)
    &&& match named_type_at(s, g + 3) {
        Ok((_, q)) => group_at(s, q, Delim::Brace),
        Err(_) => false,
    }
}

/// The law of the forms with several sources, `(a: T, ..) => c: V { .. }`
/// (a rename) and `+ (a: T, ..) => c: V { .. }` (a copy): what is read is
/// the sources listed in the parentheses, exactly the name and type written
/// after `=>` as the target, and the block after them as the converter; and
/// when all of these are there, the change is read.
pub proof fn lemma_sources_form_parts(s: Seq<TokenView>, p: int)
    ensures
        group_at(s, p, Delim::Paren) ==> match field_at(s, p) {
            Ok((MigrationFieldView::Rename { source, target, converter }, end)) => sources_parts(s, p, source, target, converter, end),
            Ok(_) => false,
            Err(_) => !sources_complete(s, p),
        },
        punct_at(s, p, '+') && group_at(s, p + 1, Delim::Paren) ==> match field_at(s, p) {
            Ok((MigrationFieldView::Copy { source, target, converter }, end)) => sources_parts(s, p + 1, source, target, converter, end),
            Ok(_) => false,
            Err(_) => !sources_complete(s, p + 1),
        },
{
}

/// The law of a typed copy: a change written `+ a: T => b: U`, followed by
/// a block or not, copies `a` (of type `T`) into `b` (of type `U`), the block
/// being its converter; it is never an addition. An addition `+ b: U` is
/// one whose type is not followed by `=>`.
pub proof fn lemma_typed_copy(s: Seq<TokenView>, p: int)
    requires
        punct_at(s, p, '+'),
        !group_at(s, p + 1, Delim::Paren),
    ensures
        match named_type_at(s, p + 1) {
            Ok((source, q)) => fat_arrow_at(s, q) ==> match named_type_at(s, q + 2) {
                Ok((target, r)) => field_at(s, p) == Ok::<(MigrationFieldView, int), ParseError>((
                    MigrationFieldView::Copy { source: seq![source], target, converter: block_after(s, r).0 },
                    block_after(s, r).1,
                )),
                Err(_) => field_at(s, p) is Err,
            },
            Err(_) => true,
        },
        match field_at(s, p) {
            Ok((MigrationFieldView::Add { value, .. }, _)) => match named_type_at(s, p + 1) {
                Ok((v, q)) => v == value && !fat_arrow_at(s, q),
                Err(_) => false,
            },
            _ => true,
        },
{
}

/// The law of the forms with one source or none, read off what is written:
/// - `+ a: T` with an optional block adds `a` of type `T`, the block
///   computing it, when no `=>` follows the type;
/// - `- a: T` removes `a` of type `T`;
/// - `+ a => b: T` copies `a` into `b`, both of type `T`;
/// - `a: T => b: U` renames `a` (of type `T`) to `b` (of type `U`);
/// - `a: T => U` changes the type of `a` to `U`, keeping its name;
/// - `a => b: T` renames `a` to `b`, both of type `T`;
/// each with the block that follows, if any, as converter, and ending after
/// it.
pub proof fn lemma_single_source_forms(s: Seq<TokenView>, p: int)
    ensures
        punct_at(s, p, '+') && !group_at(s, p + 1, Delim::Paren) ==> match named_type_at(s, p + 1) {
            Ok((value, q)) => !fat_arrow_at(s, q) ==> field_at(s, p) == Ok::<(MigrationFieldView, int), ParseError>((
                MigrationFieldView::Add { value, converter: block_after(s, q).0 },
                block_after(s, q).1,
            )),
            Err(_) => true,
        },
        punct_at(s, p, '-') ==> match named_type_at(s, p + 1) {
            Ok((value, q)) => field_at(s, p) == Ok::<(MigrationFieldView, int), ParseError>((MigrationFieldView::Remove { value }, q)),
            Err(e) => field_at(s, p) == Err::<(MigrationFieldView, int), ParseError>(e),
        },
        punct_at(s, p, '+') && !group_at(s, p + 1, Delim::Paren) && !punct_at(s, p + 2, ':') && fat_arrow_at(s, p + 2) ==> match (ident_at(s, p + 1), named_type_at(s, p + 4)) {
            (Some(a), Ok(((b, ty), r))) => field_at(s, p) == Ok::<(MigrationFieldView, int), ParseError>((
                MigrationFieldView::Copy { source: seq![(a, ty)], target: (b, ty), converter: block_after(s, r).0 },
                block_after(s, r).1,
            )),
            _ => true,
        },
        !punct_at(s, p, '+') && !punct_at(s, p, '-') && !group_at(s, p, Delim::Paren) ==> match named_type_at(s, p) {
            Ok((source, q)) => fat_arrow_at(s, q) ==> if colon_second(s, q + 2) {
                match named_type_at(s, q + 2) {
                    Ok((target, r)) => field_at(s, p) == Ok::<(MigrationFieldView, int), ParseError>((
                        MigrationFieldView::Rename { source: seq![source], target, converter: block_after(s, r).0 },
                        block_after(s, r).1,
                    )),
                    Err(_) => true,
                }
            } else {
                match type_at(s, q + 2) {
                    Some((ty, r)) => field_at(s, p) == Ok::<(MigrationFieldView, int), ParseError>((
                        MigrationFieldView::Rename { source: seq![source], target: (source.0, ty), converter: block_after(s, r).0 },
                        block_after(s, r).1,
                    )),
                    None => true,
                }
            },
            Err(_) => true,
        },
        !punct_at(s, p, '+') && !punct_at(s, p, '-') && !group_at(s, p, Delim::Paren) && !punct_at(s, p + 1, ':') && fat_arrow_at(s, p + 1)
            ==> match (ident_at(s, p), named_type_at(s, p + 3)) {
            (Some(a), Ok(((b, ty), r))) => field_at(s, p) == Ok::<(MigrationFieldView, int), ParseError>((
                MigrationFieldView::Rename { source: seq![(a, ty)], target: (b, ty), converter: block_after(s, r).0 },
                block_after(s, r).1,
            )),
            _ => true,
        },
{
}

/// The result of a parse, model against model.
pub open spec fn parsed_as(r: Result<(MigrationField, usize), ParseError>, expected: Result<(MigrationFieldView, int), ParseError>) -> bool {
    match r {
        Ok((f, q)) => expected == Ok::<(MigrationFieldView, int), ParseError>((f@, q as int)),
        Err(e) => expected == Err::<(MigrationFieldView, int), ParseError>(e),
    }
}

fn named_type(toks: &[Token], p: usize) -> (r: Result<(NamedType, usize), ParseError>)
    ensures
        match r {
            Ok((f, q)) => named_type_at(tokens_view(toks@), p as int) == Ok::<(NamedTypeView, int), ParseError>((named_view(f), q as int)),
            Err(e) => named_type_at(tokens_view(toks@), p as int) == Err::<(NamedTypeView, int), ParseError>(e),
        },
{
    // The length as a machine number bounds the positions computed below.
    let _len = toks.len();
    let k = match read_ident(toks, p) {
        Some(k) => k,
        None => return Err(ParseError::ExpectedIdent),
    };
    if !is_punct(toks, p + 1, ':') {
        return Err(ParseError::ExpectedColon);
    }
    match read_type(toks, p + 2) {
        None => Err(ParseError::ExpectedTypePath),
        Some((t, q)) => Ok(((k, t), q)),
    }
}

fn optional_block(toks: &[Token], q: usize) -> (r: (Option<Token>, usize))
    ensures
        converter_view(r.0) == block_after(tokens_view(toks@), q as int).0,
        r.1 == block_after(tokens_view(toks@), q as int).1,
{
    // The length as a machine number bounds the positions computed below.
    let _len = toks.len();
    if is_group(toks, q, Delim::Brace) {
        (Some(block_at(toks, q)), q + 1)
    } else {
        (None, q)
    }
}

/// The source list `c` of a group, from `p` on, given what came before it.
pub open spec fn sources_after(acc: Seq<NamedTypeView>, rest: Result<Seq<NamedTypeView>, ParseError>) -> Result<Seq<NamedTypeView>, ParseError> {
    match rest {
        Ok(r) => Ok(acc + r),
        Err(e) => Err(e),
    }
}

fn read_sources(c: &[Token]) -> (r: Result<Vec<NamedType>, ParseError>)
    ensures
        match r {
            Ok(v) => source_list(tokens_view(c@), 0) == Ok::<Seq<NamedTypeView>, ParseError>(named_views(v@)),
            Err(e) => source_list(tokens_view(c@), 0) == Err::<Seq<NamedTypeView>, ParseError>(e),
        },
{
    let ghost cv = tokens_view(c@);
    let mut acc: Vec<NamedType> = Vec::new();
    let mut p: usize = 0;
    assert(named_views(acc@) =~= Seq::<NamedTypeView>::empty());
    assert(sources_after(Seq::empty(), source_list(cv, 0)) =~= source_list(cv, 0));
    while p < c.len()
        invariant
            p <= c.len(),
            cv == tokens_view(c@),
            source_list(cv, 0) == sources_after(named_views(acc@), source_list(cv, p as int)),
        decreases c.len() - p,
    {
        match named_type(c, p) {
            Err(e) => return Err(e),
            Ok((f, q)) => {
                let next = if is_punct(c, q, ',') { q + 1 } else { q };
                let ghost before = named_views(acc@);
                acc.push(f);
                assert(named_views(acc@) =~= before.push(named_view(f)));
                assert(source_list(cv, p as int) == sources_after(seq![named_view(f)], source_list(cv, next as int)));
                assert(before + (seq![named_view(f)] + Seq::empty()) =~= before.push(named_view(f)) + Seq::empty());
                assert forall|r: Seq<NamedTypeView>| #![auto] before + (seq![named_view(f)] + r) =~= before.push(named_view(f)) + r by {}
                p = next;
            },
        }
    }
    assert(named_views(acc@) + Seq::empty() =~= named_views(acc@));
    Ok(acc)
}

fn sources_form_exec(toks: &[Token], p: usize, copy: bool) -> (r: Result<(MigrationField, usize), ParseError>)
    requires
        group_at(tokens_view(toks@), p as int, Delim::Paren),
    ensures
        parsed_as(r, sources_form(tokens_view(toks@), p as int, copy)),
{
    // The length as a machine number bounds the positions computed below.
    let _len = toks.len();
    let source = read_sources(group_tokens(toks, p))?;
    if !is_fat_arrow(toks, p + 1) {
        return Err(ParseError::ExpectedFatArrow);
    }
    let (target, q) = named_type(toks, p + 3)?;
    if !is_group(toks, q, Delim::Brace) {
        return Err(ParseError::ExpectedBraces);
    }
    let converter = Some(block_at(toks, q));
    if copy {
        Ok((MigrationField::Copy { source, target, converter }, q + 1))
    } else {
        Ok((MigrationField::Rename { source, target, converter }, q + 1))
    }
}

fn plus_form_exec(toks: &[Token], p: usize) -> (r: Result<(MigrationField, usize), ParseError>)
    ensures
        parsed_as(r, plus_form(tokens_view(toks@), p as int)),
{
    // The length as a machine number bounds the positions computed below.
    let _len = toks.len();
    if is_group(toks, p, Delim::Paren) {
        return sources_form_exec(toks, p, true);
    }
    let k = match read_ident(toks, p) {
        Some(k) => k,
        None => return Err(ParseError::ExpectedIdent),
    };
    if is_punct(toks, p + 1, ':') {
        let (ty, q) = match read_type(toks, p + 2) {
            Some(found) => found,
            None => return Err(ParseError::ExpectedTypePath),
        };
        if is_fat_arrow(toks, q) {
            let (target, r) = named_type(toks, q + 2)?;
            let (converter, end) = optional_block(toks, r);
            let ghost sv = seq![named_view((k, ty))];
            let source = vec![(k, ty)];
            assert(named_views(source@) =~= sv);
            Ok((MigrationField::Copy { source, target, converter }, end))
        } else {
            let (converter, end) = optional_block(toks, q);
            Ok((MigrationField::Add { value: (k, ty), converter }, end))
        }
    } else if !is_fat_arrow(toks, p + 1) {
        Err(ParseError::ExpectedFatArrow)
    } else {
        let ((t, ty), r) = named_type(toks, p + 3)?;
        let (converter, end) = optional_block(toks, r);
        let source_ty = ty.copy();
        let ghost sv = seq![named_view((k, source_ty))];
        let source = vec![(k, source_ty)];
        assert(named_views(source@) =~= sv);
        Ok((MigrationField::Copy { source, target: (t, ty), converter }, end))
    }
}

fn rename_form_exec(toks: &[Token], p: usize) -> (r: Result<(MigrationField, usize), ParseError>)
    ensures
        parsed_as(r, rename_form(tokens_view(toks@), p as int)),
{
    // The length as a machine number bounds the positions computed below.
    let _len = toks.len();
    let k = match read_ident(toks, p) {
        Some(k) => k,
        None => return Err(ParseError::ExpectedIdent),
    };
    if is_punct(toks, p + 1, ':') {
        let (ty, q) = match read_type(toks, p + 2) {
            Some(found) => found,
            None => return Err(ParseError::ExpectedTypePath),
        };
        if !is_fat_arrow(toks, q) {
            return Err(ParseError::ExpectedFatArrow);
        }
        if is_colon_second(toks, q + 2) {
            let (target, r) = named_type(toks, q + 2)?;
            let (converter, end) = optional_block(toks, r);
            let ghost sv = seq![named_view((k, ty))];
            let source = vec![(k, ty)];
            assert(named_views(source@) =~= sv);
            Ok((MigrationField::Rename { source, target, converter }, end))
        } else {
            let (new_ty, r) = match read_type(toks, q + 2) {
                Some(found) => found,
                None => return Err(ParseError::ExpectedTypePath),
            };
            let (converter, end) = optional_block(toks, r);
            let target_name = k.clone();
            let ghost sv = seq![named_view((k, ty))];
            let source = vec![(k, ty)];
            assert(named_views(source@) =~= sv);
            Ok((MigrationField::Rename { source, target: (target_name, new_ty), converter }, end))
        }
    } else if !is_fat_arrow(toks, p + 1) {
        Err(ParseError::ExpectedFatArrow)
    } else {
        let ((t, ty), r) = named_type(toks, p + 3)?;
        let (converter, end) = optional_block(toks, r);
        let source_ty = ty.copy();
        let ghost sv = seq![named_view((k, source_ty))];
        let source = vec![(k, source_ty)];
        assert(named_views(source@) =~= sv);
        Ok((MigrationField::Rename { source, target: (t, ty), converter }, end))
    }
}

impl MigrationField {
    /// Parses the change that starts at position `p` of `toks`; on success,
    /// also says where it ends.
    pub fn parse(toks: &[Token], p: usize) -> (r: Result<(MigrationField, usize), ParseError>)
        ensures
            parsed_as(r, field_at(tokens_view(toks@), p as int)),
    {
        // The length as a machine number bounds the positions computed below.
        let _len = toks.len();
        if is_punct(toks, p, '+') {
            plus_form_exec(toks, p + 1)
        } else if is_punct(toks, p, '-') {
            let (value, q) = named_type(toks, p + 1)?;
            Ok((MigrationField::Remove { value }, q))
        } else if is_group(toks, p, Delim::Paren) {
            sources_form_exec(toks, p, false)
        } else {
            rename_form_exec(toks, p)
        }
    }
}

} // verus!
