//! One step of a migration: `"from" => "to" { changes }`.

use vstd::prelude::*;
use crate::tokens::{group_tokens_view, tokens_view, Delim, Token, TokenView};
use crate::syntax::{
    fat_arrow_at, group_at, group_inner, group_tokens, is_fat_arrow, is_group, is_punct, punct_at,
    read_string, string_at, ParseError,
};
use crate::field::{field_at, lemma_field_progress, MigrationField, MigrationFieldView};

verus! {

broadcast use group_tokens_view;

/// The step from version `from` to version `to`, with the changes it makes.
pub struct MigrationComment {
    pub from: String,
    pub to: String,
    pub changes: Vec<MigrationField>,
}

/// The model of a [`MigrationComment`].
pub struct MigrationCommentView {
    pub from: Seq<char>,
    pub to: Seq<char>,
    pub changes: Seq<MigrationFieldView>,
}

pub open spec fn field_views(v: Seq<MigrationField>) -> Seq<MigrationFieldView> {
    v.map_values(|f: MigrationField| f@)
}

impl View for MigrationComment {
    type V = MigrationCommentView;

    open spec fn view(&self) -> MigrationCommentView {
        MigrationCommentView { from: self.from@, to: self.to@, changes: field_views(self.changes@) }
    }
}

impl Clone for MigrationComment {
    fn clone(&self) -> (r: Self)
        ensures
            r@ == self@,
    {
        let mut changes: Vec<MigrationField> = Vec::new();
        let mut i: usize = 0;
        while i < self.changes.len()
            invariant
                i <= self.changes@.len(),
                field_views(changes@) == field_views(self.changes@.subrange(0, i as int)),
            decreases self.changes@.len() - i,
        {
            let c = self.changes[i].clone();
            let ghost before = field_views(changes@);
            changes.push(c);
            assert(field_views(changes@) =~= before.push(c@));
            assert(field_views(self.changes@.subrange(0, i + 1)) =~= field_views(self.changes@.subrange(0, i as int)).push(self.changes@[i as int]@));
            i += 1;
        }
        assert(self.changes@.subrange(0, self.changes@.len() as int) =~= self.changes@);
        MigrationComment { from: self.from.clone(), to: self.to.clone(), changes }
    }
}

/// The changes from `p` to the end of `c`; the commas between them may be
/// left out.
pub open spec fn change_list(c: Seq<TokenView>, p: int) -> Result<Seq<MigrationFieldView>, ParseError>
    decreases c.len() - p,
    via change_list_decreases
{
    if p < 0 || p >= c.len() {
        Ok(Seq::empty())
    } else {
        match field_at(c, p) {
            Err(e) => Err(e),
            Ok((f, q)) => {
                let next = if punct_at(c, q, ',') { q + 1 } else { q };
                match change_list(c, next) {
                    Err(e) => Err(e),
                    Ok(rest) => Ok(seq![f] + rest),
                }
            },
        }
    }
}

#[via_fn]
proof fn change_list_decreases(c: Seq<TokenView>, p: int) {
    lemma_field_progress(c, p);
}

/// `"from" => "to"`, optionally followed by `{ changes }`, at `p`.
pub open spec fn comment_at(s: Seq<TokenView>, p: int) -> Result<(MigrationCommentView, int), ParseError> {
    match string_at(s, p) {
        None => Err(ParseError::ExpectedStringLiteral),
        Some(from) => if !fat_arrow_at(s, p + 1) {
            Err(ParseError::ExpectedFatArrow)
        } else {
            match string_at(s, p + 3) {
                None => Err(ParseError::ExpectedStringLiteral),
                Some(to) => if group_at(s, p + 4, Delim::Brace) {
                    match change_list(group_inner(s[p + 4]), 0) {
                        Err(e) => Err(e),
                        Ok(changes) => Ok((MigrationCommentView { from, to, changes }, p + 5)),
                    }
                } else {
                    Ok((MigrationCommentView { from, to, changes: Seq::empty() }, p + 4))
                },
            }
        },
    }
}

/// A whole token sequence read as one step: nothing may follow it.
pub open spec fn comment_of(s: Seq<TokenView>) -> Result<MigrationCommentView, ParseError> {
    match comment_at(s, 0) {
        Err(e) => Err(e),
        Ok((c, q)) => if q == s.len() {
            Ok(c)
        } else {
            Err(ParseError::UnexpectedToken)
        },
    }
}

/// The law of a step's parts: a step read at `p` goes from the version
/// written first to the one written after `=>`, and its changes are those
/// listed in the braces that follow, none where there are no braces; it ends
/// after the braces, or after the second version.
pub proof fn lemma_comment_parts(s: Seq<TokenView>, p: int)
    ensures
        match comment_at(s, p) {
            Ok((c, q)) => {
                &&& string_at(s, p) == Some(c.from)
                &&& fat_arrow_at(s, p + 1)
                &&& string_at(s, p + 3) == Some(c.to)
                &&& group_at(s, p + 4, Delim::Brace) ==> change_list(group_inner(s[p + 4]), 0) == Ok::<Seq<MigrationFieldView>, ParseError>(c.changes) && q == p + 5
                &&& !group_at(s, p + 4, Delim::Brace) ==> c.changes.len() == 0 && q == p + 4
            },
            Err(_) => true,
        },
{
}

/// The changes so far, followed by what the rest of the list gives.
pub open spec fn changes_after(acc: Seq<MigrationFieldView>, rest: Result<Seq<MigrationFieldView>, ParseError>) -> Result<Seq<MigrationFieldView>, ParseError> {
    match rest {
        Ok(r) => Ok(acc + r),
        Err(e) => Err(e),
    }
}

fn read_changes(c: &[Token]) -> (r: Result<Vec<MigrationField>, ParseError>)
    ensures
        match r {
            Ok(v) => change_list(tokens_view(c@), 0) == Ok::<Seq<MigrationFieldView>, ParseError>(field_views(v@)),
            Err(e) => change_list(tokens_view(c@), 0) == Err::<Seq<MigrationFieldView>, ParseError>(e),
        },
{
    let ghost cv = tokens_view(c@);
    let mut acc: Vec<MigrationField> = Vec::new();
    let mut p: usize = 0;
    assert(field_views(acc@) =~= Seq::<MigrationFieldView>::empty());
    assert(changes_after(Seq::empty(), change_list(cv, 0)) =~= change_list(cv, 0));
    while p < c.len()
        invariant
            p <= c.len(),
            cv == tokens_view(c@),
            change_list(cv, 0) == changes_after(field_views(acc@), change_list(cv, p as int)),
        decreases c.len() - p,
    {
        match MigrationField::parse(c, p) {
            Err(e) => return Err(e),
            Ok((f, q)) => {
                proof {
                    lemma_field_progress(cv, p as int);
                }
                let next = if is_punct(c, q, ',') { q + 1 } else { q };
                let ghost before = field_views(acc@);
                let ghost fv = f@;
                acc.push(f);
                assert(field_views(acc@) =~= before.push(fv));
                assert(change_list(cv, p as int) == changes_after(seq![fv], change_list(cv, next as int)));
                assert forall|r: Seq<MigrationFieldView>| #![auto] before + (seq![fv] + r) =~= before.push(fv) + r by {}
                p = next;
            },
        }
    }
    assert(field_views(acc@) + Seq::empty() =~= field_views(acc@));
    Ok(acc)
}

impl MigrationComment {
    /// Parses the step that starts at position `p` of `toks`; on success,
    /// also says where it ends.
    pub fn parse(toks: &[Token], p: usize) -> (r: Result<(MigrationComment, usize), ParseError>)
        ensures
            match r {
                Ok((c, q)) => comment_at(tokens_view(toks@), p as int) == Ok::<(MigrationCommentView, int), ParseError>((c@, q as int)),
                Err(e) => comment_at(tokens_view(toks@), p as int) == Err::<(MigrationCommentView, int), ParseError>(e),
            },
    {
        // The length as a machine number bounds the positions computed below.
        let _len = toks.len();
        let from = match read_string(toks, p) {
            Some(v) => v,
            None => return Err(ParseError::ExpectedStringLiteral),
        };
        if !is_fat_arrow(toks, p + 1) {
            return Err(ParseError::ExpectedFatArrow);
        }
        let to = match read_string(toks, p + 3) {
            Some(v) => v,
            None => return Err(ParseError::ExpectedStringLiteral),
        };
        if is_group(toks, p + 4, Delim::Brace) {
            let changes = read_changes(group_tokens(toks, p + 4))?;
            Ok((MigrationComment { from, to, changes }, p + 5))
        } else {
            let changes: Vec<MigrationField> = Vec::new();
            assert(field_views(changes@) =~= Seq::<MigrationFieldView>::empty());
            Ok((MigrationComment { from, to, changes }, p + 4))
        }
    }

    /// Parses a whole token sequence as one step, as the parenthesised
    /// argument of `#[migration(..)]`.
    pub fn parse_all(toks: &[Token]) -> (r: Result<MigrationComment, ParseError>)
        ensures
            match r {
                Ok(c) => comment_of(tokens_view(toks@)) == Ok::<MigrationCommentView, ParseError>(c@),
                Err(e) => comment_of(tokens_view(toks@)) == Err::<MigrationCommentView, ParseError>(e),
            },
    {
        let (c, q) = Self::parse(toks, 0)?;
        if q == toks.len() {
            Ok(c)
        } else {
            Err(ParseError::UnexpectedToken)
        }
    }
}

} // verus!
