//! A struct with its migration history: `#[migration(..)]` attributes, other
//! attributes, then the struct item itself.

use vstd::prelude::*;
use crate::tokens::{copy_tokens, group_tokens_view, lemma_tokens_view_subrange, tokens_view, Delim, Token, TokenView};
use crate::syntax::{
    group_at, group_inner, group_tokens, ident_at, is_group, is_punct, parse_struct_item,
    parsed_struct, punct_at, read_ident, struct_reading, ParseError, StructReading,
};
use crate::comment::{comment_of, MigrationComment, MigrationCommentView};

verus! {

broadcast use group_tokens_view;

/// A struct item, the migration steps written above it, and its other
/// attributes (the name of each, and the tokens after the name).
pub struct Migration {
    pub versions: Vec<MigrationComment>,
    pub extra_macros: Vec<(String, Vec<Token>)>,
    pub struct_data: syn::ItemStruct,
}

/// The model of a [`Migration`]: the struct item as `syn` reads it.
pub struct MigrationView {
    pub versions: Seq<MigrationCommentView>,
    pub extra_macros: Seq<(Seq<char>, Seq<TokenView>)>,
    pub struct_item: StructReading,
}

pub open spec fn comment_views(v: Seq<MigrationComment>) -> Seq<MigrationCommentView> {
    v.map_values(|c: MigrationComment| c@)
}

pub open spec fn extra_view(x: (String, Vec<Token>)) -> (Seq<char>, Seq<TokenView>) {
    (x.0@, tokens_view(x.1@))
}

pub open spec fn extra_views(v: Seq<(String, Vec<Token>)>) -> Seq<(Seq<char>, Seq<TokenView>)> {
    v.map_values(|x: (String, Vec<Token>)| extra_view(x))
}

impl View for Migration {
    type V = MigrationView;

    open spec fn view(&self) -> MigrationView {
        MigrationView {
            versions: comment_views(self.versions@),
            extra_macros: extra_views(self.extra_macros@),
            struct_item: struct_reading(self.struct_data),
        }
    }
}

/// Clones a `syn::ItemStruct` (`Clone::clone`): the copy reads as the item
/// does.
#[verifier::external_body]
fn clone_struct_item(item: &syn::ItemStruct) -> (r: syn::ItemStruct)
    ensures
        struct_reading(r) == struct_reading(*item),
{
    item.clone()
}

impl Clone for Migration {
    fn clone(&self) -> (r: Self)
        ensures
            r@ == self@,
    {
        let mut versions: Vec<MigrationComment> = Vec::new();
        let mut i: usize = 0;
        while i < self.versions.len()
            invariant
                i <= self.versions@.len(),
                comment_views(versions@) == comment_views(self.versions@.subrange(0, i as int)),
            decreases self.versions@.len() - i,
        {
            let c = self.versions[i].clone();
            let ghost before = comment_views(versions@);
            versions.push(c);
            assert(comment_views(versions@) =~= before.push(c@));
            assert(comment_views(self.versions@.subrange(0, i + 1)) =~= comment_views(self.versions@.subrange(0, i as int)).push(self.versions@[i as int]@));
            i += 1;
        }
        assert(self.versions@.subrange(0, self.versions@.len() as int) =~= self.versions@);
        let mut extra_macros: Vec<(String, Vec<Token>)> = Vec::new();
        let mut j: usize = 0;
        while j < self.extra_macros.len()
            invariant
                j <= self.extra_macros@.len(),
                extra_views(extra_macros@) == extra_views(self.extra_macros@.subrange(0, j as int)),
            decreases self.extra_macros@.len() - j,
        {
            let entry = &self.extra_macros[j];
            let x = (entry.0.clone(), copy_tokens(entry.1.as_slice()));
            let ghost before = extra_views(extra_macros@);
            assert(extra_view(x) == extra_view(self.extra_macros@[j as int]));
            extra_macros.push(x);
            assert(extra_views(extra_macros@) =~= before.push(extra_view(x)));
            assert(extra_views(self.extra_macros@.subrange(0, j + 1)) =~= extra_views(self.extra_macros@.subrange(0, j as int)).push(extra_view(self.extra_macros@[j as int])));
            j += 1;
        }
        assert(self.extra_macros@.subrange(0, self.extra_macros@.len() as int) =~= self.extra_macros@);
        Migration { versions, extra_macros, struct_data: clone_struct_item(&self.struct_data) }
    }
}

/// What one attribute of the struct says.
pub enum AttributeView {
    /// `#[migration(..)]`.
    Step(MigrationCommentView),
    /// Any other attribute: its name and the tokens after it.
    Other(Seq<char>, Seq<TokenView>),
}

/// The tokens inside `#[ .. ]`, read as one attribute.
pub open spec fn attribute_of(c: Seq<TokenView>) -> Result<AttributeView, ParseError> {
    match ident_at(c, 0) {
        None => Err(ParseError::ExpectedIdent),
        Some(key) => if key == "migration"@ {
            if !group_at(c, 1, Delim::Paren) {
                Err(ParseError::ExpectedParens)
            } else {
                match comment_of(group_inner(c[1])) {
                    Err(e) => Err(e),
                    Ok(step) => if c.len() == 2 {
                        Ok(AttributeView::Step(step))
                    } else {
                        Err(ParseError::UnexpectedToken)
                    },
                }
            }
        } else {
            Ok(AttributeView::Other(key, c.subrange(1, c.len() as int)))
        },
    }
}

/// The law of other attributes: an attribute `#[k ..]` whose key `k` is an
/// identifier other than `migration` is always taken as another attribute,
/// its name `k` and every token after it, none included: `#[non_exhaustive]`
/// is one, with nothing after its name.
pub proof fn lemma_other_attribute(c: Seq<TokenView>)
    ensures
        match ident_at(c, 0) {
            Some(k) => k != "migration"@ ==> attribute_of(c) == Ok::<AttributeView, ParseError>(AttributeView::Other(k, c.subrange(1, c.len() as int))),
            None => attribute_of(c) is Err,
        },
        c.len() == 1 && ident_at(c, 0) is Some && ident_at(c, 0) != Some("migration"@)
            ==> attribute_of(c) == Ok::<AttributeView, ParseError>(AttributeView::Other(c[0]->Ident_0, Seq::empty())),
{
    if c.len() == 1 {
        assert(c.subrange(1, 1) =~= Seq::<TokenView>::empty());
    }
}

/// The attributes from `p` on: the steps, the other attributes, and where
/// the attributes end.
pub open spec fn attributes_at(s: Seq<TokenView>, p: int) -> Result<(Seq<MigrationCommentView>, Seq<(Seq<char>, Seq<TokenView>)>, int), ParseError>
    decreases s.len() - p,
{
    if 0 <= p && punct_at(s, p, '#') {
        if !group_at(s, p + 1, Delim::Bracket) {
            Err(ParseError::ExpectedBrackets)
        } else {
            match attribute_of(group_inner(s[p + 1])) {
                Err(e) => Err(e),
                Ok(a) => match attributes_at(s, p + 2) {
                    Err(e) => Err(e),
                    Ok((steps, others, q)) => match a {
                        AttributeView::Step(step) => Ok((seq![step] + steps, others, q)),
                        AttributeView::Other(key, rest) => Ok((steps, seq![(key, rest)] + others, q)),
                    },
                },
            }
        }
    } else {
        Ok((Seq::empty(), Seq::empty(), p))
    }
}

/// A whole token sequence read as a struct with its migration history.
pub open spec fn migration_of(s: Seq<TokenView>) -> Result<MigrationView, ParseError> {
    match attributes_at(s, 0) {
        Err(e) => Err(e),
        Ok((versions, extra_macros, q)) => match parsed_struct(s.subrange(q, s.len() as int)) {
            Some(struct_item) => Ok(MigrationView { versions, extra_macros, struct_item }),
            None => Err(ParseError::ExpectedStruct),
        },
    }
}

/// The attributes read so far, followed by what the rest gives.
pub open spec fn attributes_after(
    steps: Seq<MigrationCommentView>,
    others: Seq<(Seq<char>, Seq<TokenView>)>,
    rest: Result<(Seq<MigrationCommentView>, Seq<(Seq<char>, Seq<TokenView>)>, int), ParseError>,
) -> Result<(Seq<MigrationCommentView>, Seq<(Seq<char>, Seq<TokenView>)>, int), ParseError> {
    match rest {
        Ok((s2, o2, q)) => Ok((steps + s2, others + o2, q)),
        Err(e) => Err(e),
    }
}

/// The law of a run of attributes: each `#[..]` in turn is read as one
/// attribute; a step joins the steps and any other attribute joins the
/// other attributes, in the order written, and the first attribute that
/// cannot be read gives its error.
pub proof fn lemma_attribute_taken(s: Seq<TokenView>, p: int)
    requires
        0 <= p,
        punct_at(s, p, '#'),
        group_at(s, p + 1, Delim::Bracket),
    ensures
        match attribute_of(group_inner(s[p + 1])) {
            Ok(AttributeView::Step(step)) => attributes_at(s, p) == attributes_after(seq![step], Seq::empty(), attributes_at(s, p + 2)),
            Ok(AttributeView::Other(key, rest)) => attributes_at(s, p) == attributes_after(Seq::empty(), seq![(key, rest)], attributes_at(s, p + 2)),
            Err(e) => attributes_at(s, p) == Err::<(Seq<MigrationCommentView>, Seq<(Seq<char>, Seq<TokenView>)>, int), ParseError>(e),
        },
{
    match attributes_at(s, p + 2) {
        Ok((steps, others, q)) => {
            assert(Seq::<MigrationCommentView>::empty() + steps =~= steps);
            assert(Seq::<(Seq<char>, Seq<TokenView>)>::empty() + others =~= others);
        },
        Err(_) => {},
    }
}

/// One attribute, as plain values.
enum Attribute {
    Step(MigrationComment),
    Other(String, Vec<Token>),
}

fn read_attribute(c: &[Token]) -> (r: Result<Attribute, ParseError>)
    ensures
        match r {
            Ok(Attribute::Step(step)) => attribute_of(tokens_view(c@)) == Ok::<AttributeView, ParseError>(AttributeView::Step(step@)),
            Ok(Attribute::Other(key, rest)) => attribute_of(tokens_view(c@)) == Ok::<AttributeView, ParseError>(AttributeView::Other(key@, tokens_view(rest@))),
            Err(e) => attribute_of(tokens_view(c@)) == Err::<AttributeView, ParseError>(e),
        },
{
    let key = match read_ident(c, 0) {
        Some(k) => k,
        None => return Err(ParseError::ExpectedIdent),
    };
    let migration = String::from_str("migration");
    if key == migration {
        if !is_group(c, 1, Delim::Paren) {
            return Err(ParseError::ExpectedParens);
        }
        let step = MigrationComment::parse_all(group_tokens(c, 1))?;
        if c.len() == 2 {
            Ok(Attribute::Step(step))
        } else {
            Err(ParseError::UnexpectedToken)
        }
    } else {
        let rest = copy_tokens(vstd::slice::slice_subrange(c, 1, c.len()));
        proof {
            lemma_tokens_view_subrange(c@, 1, c@.len() as int);
        }
        Ok(Attribute::Other(key, rest))
    }
}

impl Migration {
    /// Parses a whole token sequence as a struct with its migration history.
    /// Every attribute before the struct is taken as a step or as another
    /// attribute, so the struct item is left with none.
    pub fn parse(toks: &[Token]) -> (r: Result<Migration, ParseError>)
        ensures
            match r {
                Ok(m) => migration_of(tokens_view(toks@)) == Ok::<MigrationView, ParseError>(m@),
                Err(e) => migration_of(tokens_view(toks@)) == Err::<MigrationView, ParseError>(e),
            },
            r matches Ok(m) ==> m@.struct_item.attributes == 0,
    {
        let ghost s = tokens_view(toks@);
        let mut versions: Vec<MigrationComment> = Vec::new();
        let mut extra_macros: Vec<(String, Vec<Token>)> = Vec::new();
        let mut p: usize = 0;
        assert(comment_views(versions@) =~= Seq::<MigrationCommentView>::empty());
        assert(extra_views(extra_macros@) =~= Seq::<(Seq<char>, Seq<TokenView>)>::empty());
        assert(attributes_after(Seq::empty(), Seq::empty(), attributes_at(s, 0)) =~= attributes_at(s, 0));
        while is_punct(toks, p, '#')
            invariant
                p <= toks.len(),
                s == tokens_view(toks@),
                attributes_at(s, 0) == attributes_after(comment_views(versions@), extra_views(extra_macros@), attributes_at(s, p as int)),
            decreases toks.len() - p,
        {
            if !is_group(toks, p + 1, Delim::Bracket) {
                return Err(ParseError::ExpectedBrackets);
            }
            let attribute = read_attribute(group_tokens(toks, p + 1))?;
            let ghost vs = comment_views(versions@);
            let ghost xs = extra_views(extra_macros@);
            match attribute {
                Attribute::Step(step) => {
                    let ghost v = step@;
                    versions.push(step);
                    assert(comment_views(versions@) =~= vs.push(v));
                    assert forall|r: Seq<MigrationCommentView>| #![auto] vs + (seq![v] + r) =~= vs.push(v) + r by {}
                },
                Attribute::Other(key, rest) => {
                    let ghost x = (key@, tokens_view(rest@));
                    extra_macros.push((key, rest));
                    assert(extra_views(extra_macros@) =~= xs.push(x));
                    assert forall|r: Seq<(Seq<char>, Seq<TokenView>)>| #![auto] xs + (seq![x] + r) =~= xs.push(x) + r by {}
                },
            }
            p = p + 2;
        }
        assert(comment_views(versions@) + Seq::empty() =~= comment_views(versions@));
        assert(extra_views(extra_macros@) + Seq::empty() =~= extra_views(extra_macros@));
        let rest = vstd::slice::slice_subrange(toks, p, toks.len());
        proof {
            lemma_tokens_view_subrange(toks@, p as int, toks@.len() as int);
            assert(punct_at(tokens_view(rest@), 0, '#') ==> punct_at(s, p as int, '#'));
        }
        match parse_struct_item(rest) {
            Some(struct_data) => Ok(Migration { versions, extra_macros, struct_data }),
            None => Err(ParseError::ExpectedStruct),
        }
    }
}

} // verus!
