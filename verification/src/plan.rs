//! How each field of the newer struct of a step is initialised from the
//! older struct.
//!
//! Every field of the older struct is carried over under its own name, then
//! the changes of the step are applied in order: an added field is computed by
//! its block or takes its type's default; a copied field is computed by the
//! converter, or cloned from its one source (converted with `into` where the
//! types are not written alike); a removed field is dropped; a renamed field drops its
//! sources and takes their value as a copy would, moving it instead of
//! cloning. A copy or rename without converter must have exactly one source.

use vstd::prelude::*;
use crate::field::{field_at, named_views, MigrationField, MigrationFieldView, NamedTypeView};
use crate::syntax::{group_at, ident_at, punct_at};
use crate::tokens::{alike, alike_all, lemma_alike_all, lemma_alike_all_reflexive, Delim, TokenView};
use crate::comment::field_views;
use crate::field_map::{sorted_names, FieldMap};

verus! {

/// How one field of the newer struct gets its value. The number is the
/// position, among the step's changes, of the change that says so.
#[derive(Clone, Copy, Debug, PartialEq, Eq, Structural)]
pub enum FieldInit {
    /// `__old.field.to_owned()`: the field is carried over.
    Carried,
    /// `{ block }`: an added field computed by its block.
    Block(usize),
    /// `Type::default()`: an added field without block.
    Default(usize),
    /// A call of the converter on clones of the sources.
    Converted(usize),
    /// `__old.source.clone()`: a copy of a field of the same type.
    Cloned(usize),
    /// `__old.source.clone().into()`: a copy of a field of another type.
    ClonedInto(usize),
    /// `__old.source`: a renamed field of the same type.
    Moved(usize),
    /// `__old.source.into()`: a renamed field of another type.
    MovedInto(usize),
}

/// Why a step cannot be planned.
#[derive(Clone, Copy, Debug, PartialEq, Eq, Structural)]
pub enum PlanError {
    /// A copy without converter has more or fewer than one source.
    CopyNeedsConverter,
    /// A rename without converter has more or fewer than one source.
    RenameNeedsConverter,
}

/// Each field of the older struct, carried over.
pub open spec fn carried<T>(old: Map<Seq<char>, T>) -> Map<Seq<char>, FieldInit> {
    old.map_values(|v: T| FieldInit::Carried)
}

/// The names of a list of fields.
pub open spec fn names_of(source: Seq<NamedTypeView>) -> Set<Seq<char>> {
    Set::new(|k: Seq<char>| exists|j: int| 0 <= j < source.len() && source[j].0 == k)
}

/// A copied or renamed field without converter: cloned or moved from its
/// one source, converted where the types are not written alike (as their
/// printed text compares them).
pub open spec fn single_source(source: Seq<NamedTypeView>, target: NamedTypeView, i: usize, moved: bool) -> FieldInit {
    if alike_all(source[0].1.tokens, target.1.tokens) {
        if moved { FieldInit::Moved(i) } else { FieldInit::Cloned(i) }
    } else {
        if moved { FieldInit::MovedInto(i) } else { FieldInit::ClonedInto(i) }
    }
}

/// The plan after change number `i`.
pub open spec fn apply_change(m: Map<Seq<char>, FieldInit>, change: MigrationFieldView, i: usize) -> Result<Map<Seq<char>, FieldInit>, PlanError> {
    match change {
        MigrationFieldView::Add { value, converter } => Ok(m.insert(
            value.0,
            if converter is Some { FieldInit::Block(i) } else { FieldInit::Default(i) },
        )),
        MigrationFieldView::Copy { source, target, converter } => if converter is Some {
            Ok(m.insert(target.0, FieldInit::Converted(i)))
        } else if source.len() == 1 {
            Ok(m.insert(target.0, single_source(source, target, i, false)))
        } else {
            Err(PlanError::CopyNeedsConverter)
        },
        MigrationFieldView::Remove { value } => Ok(m.remove(value.0)),
        MigrationFieldView::Rename { source, target, converter } => {
            let m = m.remove_keys(names_of(source));
            if converter is Some {
                Ok(m.insert(target.0, FieldInit::Converted(i)))
            } else if source.len() == 1 {
                Ok(m.insert(target.0, single_source(source, target, i, true)))
            } else {
                Err(PlanError::RenameNeedsConverter)
            }
        },
    }
}

/// The plan after the changes from number `i` on, starting from `m`.
pub open spec fn apply_changes(m: Map<Seq<char>, FieldInit>, changes: Seq<MigrationFieldView>, i: int) -> Result<Map<Seq<char>, FieldInit>, PlanError>
    decreases changes.len() - i,
{
    if i < 0 || i >= changes.len() {
        Ok(m)
    } else {
        match apply_change(m, changes[i], i as usize) {
            Err(e) => Err(e),
            Ok(next) => apply_changes(next, changes, i + 1),
        }
    }
}

/// The plan of a step: the fields of the older struct carried over, then
/// every change applied in order.
pub open spec fn plan_of<T>(old: Map<Seq<char>, T>, changes: Seq<MigrationFieldView>) -> Result<Map<Seq<char>, FieldInit>, PlanError> {
    apply_changes(carried(old), changes, 0)
}

/// Whether a change names the field `k`: as the field added, removed, copied
/// into or renamed into, or as a source of a rename.
pub open spec fn mentions(change: MigrationFieldView, k: Seq<char>) -> bool {
    match change {
        MigrationFieldView::Add { value, .. } => value.0 == k,
        MigrationFieldView::Remove { value } => value.0 == k,
        MigrationFieldView::Copy { target, .. } => target.0 == k,
        MigrationFieldView::Rename { source, target, .. } => target.0 == k || names_of(source).contains(k),
    }
}

/// Whether a change cannot be planned: a copy or a rename without converter
/// whose sources are not exactly one.
pub open spec fn unplannable(change: MigrationFieldView) -> bool {
    match change {
        MigrationFieldView::Copy { source, converter, .. } => converter is None && source.len() != 1,
        MigrationFieldView::Rename { source, converter, .. } => converter is None && source.len() != 1,
        _ => false,
    }
}

/// The error a change that cannot be planned gives.
pub open spec fn error_of(change: MigrationFieldView) -> PlanError {
    match change {
        MigrationFieldView::Copy { .. } => PlanError::CopyNeedsConverter,
        _ => PlanError::RenameNeedsConverter,
    }
}

/// How change number `i` sets a field it names, if it sets one: `None` when
/// it removes it.
pub open spec fn setting(change: MigrationFieldView, i: usize, k: Seq<char>) -> Option<FieldInit> {
    match change {
        MigrationFieldView::Add { converter, .. } => Some(if converter is Some { FieldInit::Block(i) } else { FieldInit::Default(i) }),
        MigrationFieldView::Remove { .. } => None,
        MigrationFieldView::Copy { source, target, converter } => Some(if converter is Some {
            FieldInit::Converted(i)
        } else {
            single_source(source, target, i, false)
        }),
        MigrationFieldView::Rename { source, target, converter } => if target.0 == k {
            Some(if converter is Some { FieldInit::Converted(i) } else { single_source(source, target, i, true) })
        } else {
            None
        },
    }
}

/// A change that cannot be planned makes the whole step fail, and the first
/// such change gives the error; when there is none, the step is planned.
pub proof fn lemma_plan_fails_iff_unplannable(m: Map<Seq<char>, FieldInit>, changes: Seq<MigrationFieldView>, i: int)
    requires
        0 <= i <= changes.len(),
        changes.len() <= usize::MAX,
    ensures
        apply_changes(m, changes, i) is Err <==> exists|j: int| i <= j < changes.len() && unplannable(#[trigger] changes[j]),
        forall|j: int| i <= j < changes.len() && unplannable(#[trigger] changes[j])
            && (forall|l: int| i <= l < j ==> !unplannable(#[trigger] changes[l]))
            ==> apply_changes(m, changes, i) == Err::<Map<Seq<char>, FieldInit>, PlanError>(error_of(changes[j])),
    decreases changes.len() - i,
{
    if i < changes.len() {
        match apply_change(m, changes[i], i as usize) {
            Err(e) => {},
            Ok(next) => {
                lemma_plan_fails_iff_unplannable(next, changes, i + 1);
            },
        }
    }
}

/// A step fails to plan exactly when one of its changes cannot be planned,
/// and then with the error of the first such change.
pub proof fn lemma_plan_fails<T>(old: Map<Seq<char>, T>, changes: Seq<MigrationFieldView>)
    requires
        changes.len() <= usize::MAX,
    ensures
        plan_of(old, changes) is Err <==> exists|j: int| 0 <= j < changes.len() && unplannable(#[trigger] changes[j]),
        forall|j: int| 0 <= j < changes.len() && unplannable(#[trigger] changes[j])
            && (forall|l: int| 0 <= l < j ==> !unplannable(#[trigger] changes[l]))
            ==> plan_of(old, changes) == Err::<Map<Seq<char>, FieldInit>, PlanError>(error_of(changes[j])),
{
    lemma_plan_fails_iff_unplannable(carried(old), changes, 0);
}

/// A field that no change from number `i` on names keeps what it had.
pub proof fn lemma_unnamed_field_kept(m: Map<Seq<char>, FieldInit>, changes: Seq<MigrationFieldView>, i: int, k: Seq<char>)
    requires
        0 <= i <= changes.len(),
        changes.len() <= usize::MAX,
        forall|j: int| i <= j < changes.len() ==> !mentions(#[trigger] changes[j], k),
    ensures
        apply_changes(m, changes, i) matches Ok(r) ==> (r.contains_key(k) == m.contains_key(k)
            && (m.contains_key(k) ==> r[k] == m[k])),
    decreases changes.len() - i,
{
    if i < changes.len() {
        match apply_change(m, changes[i], i as usize) {
            Err(e) => {},
            Ok(next) => {
                assert(!mentions(changes[i], k));
                assert(next.contains_key(k) == m.contains_key(k) && (m.contains_key(k) ==> next[k] == m[k]));
                lemma_unnamed_field_kept(next, changes, i + 1, k);
            },
        }
    }
}

/// After change number `j`, a field it names is set as that change says, or
/// is gone where the change removes it.
pub proof fn lemma_change_sets_field(m: Map<Seq<char>, FieldInit>, change: MigrationFieldView, j: usize, k: Seq<char>)
    requires
        mentions(change, k),
    ensures
        apply_change(m, change, j) matches Ok(r) ==> match setting(change, j, k) {
            Some(init) => r.contains_key(k) && r[k] == init,
            None => !r.contains_key(k),
        },
{
}

/// The law of a planned step, field by field. A field that no change names
/// is carried over from the older struct; otherwise the last change that
/// names it decides: the field is set as that change says, or is gone where
/// it is removed (or renamed away).
pub proof fn lemma_plan_by_field<T>(old: Map<Seq<char>, T>, changes: Seq<MigrationFieldView>, k: Seq<char>)
    requires
        changes.len() <= usize::MAX,
    ensures
        (forall|j: int| 0 <= j < changes.len() ==> !mentions(#[trigger] changes[j], k))
            ==> (plan_of(old, changes) matches Ok(r) ==> (r.contains_key(k) == old.contains_key(k)
                && (old.contains_key(k) ==> r[k] == FieldInit::Carried))),
        forall|j: int| 0 <= j < changes.len() && mentions(#[trigger] changes[j], k)
            && (forall|l: int| j < l < changes.len() ==> !mentions(#[trigger] changes[l], k))
            ==> (plan_of(old, changes) matches Ok(r) ==> match setting(changes[j], j as usize, k) {
                Some(init) => r.contains_key(k) && r[k] == init,
                None => !r.contains_key(k),
            }),
{
    if forall|j: int| 0 <= j < changes.len() ==> !mentions(#[trigger] changes[j], k) {
        lemma_unnamed_field_kept(carried(old), changes, 0, k);
    }
    assert forall|j: int| 0 <= j < changes.len() && mentions(#[trigger] changes[j], k)
        && (forall|l: int| j < l < changes.len() ==> !mentions(#[trigger] changes[l], k))
        implies (plan_of(old, changes) matches Ok(r) ==> match setting(changes[j], j as usize, k) {
            Some(init) => r.contains_key(k) && r[k] == init,
            None => !r.contains_key(k),
        }) by {
        lemma_split_at(carried(old), changes, 0, j, k);
    }
}

/// Running the changes from `i` is running them up to `j`, then change `j`,
/// then the rest; when nothing after `j` names `k`, change `j` decides `k`.
proof fn lemma_split_at(m: Map<Seq<char>, FieldInit>, changes: Seq<MigrationFieldView>, i: int, j: int, k: Seq<char>)
    requires
        0 <= i <= j < changes.len(),
        changes.len() <= usize::MAX,
        mentions(changes[j], k),
        forall|l: int| j < l < changes.len() ==> !mentions(#[trigger] changes[l], k),
    ensures
        apply_changes(m, changes, i) matches Ok(r) ==> match setting(changes[j], j as usize, k) {
            Some(init) => r.contains_key(k) && r[k] == init,
            None => !r.contains_key(k),
        },
    decreases j - i,
{
    match apply_change(m, changes[i], i as usize) {
        Err(e) => {},
        Ok(next) => {
            if i < j {
                lemma_split_at(next, changes, i + 1, j, k);
            } else {
                lemma_change_sets_field(m, changes[j], j as usize, k);
                lemma_unnamed_field_kept(next, changes, j + 1, k);
            }
        },
    }
}

/// A copy written `+ a => b: T` keeps its type, so without a block it is a
/// plain clone of `a`.
pub proof fn lemma_short_copy_clones(s: Seq<TokenView>, p: int, i: usize)
    requires
        punct_at(s, p, '+'),
        !group_at(s, p + 1, Delim::Paren),
        ident_at(s, p + 1) is Some,
        !punct_at(s, p + 2, ':'),
    ensures
        field_at(s, p) matches Ok((MigrationFieldView::Copy { source, target, converter }, _)) ==> {
            &&& source.len() == 1
            &&& source[0].1 == target.1
            &&& converter is None ==> setting(MigrationFieldView::Copy { source, target, converter }, i, target.0) == Some(FieldInit::Cloned(i))
        },
{
    if let Ok((MigrationFieldView::Copy { source, target, converter }, _)) = field_at(s, p) {
        lemma_alike_all_reflexive(target.1.tokens);
    }
}

/// A rename written `a => b: T` keeps its type, so without a block it moves
/// `a` as it is.
pub proof fn lemma_short_rename_moves(s: Seq<TokenView>, p: int, i: usize)
    requires
        !punct_at(s, p, '+'),
        !punct_at(s, p, '-'),
        !group_at(s, p, Delim::Paren),
        ident_at(s, p) is Some,
        !punct_at(s, p + 1, ':'),
    ensures
        field_at(s, p) matches Ok((MigrationFieldView::Rename { source, target, converter }, _)) ==> {
            &&& source.len() == 1
            &&& source[0].1 == target.1
            &&& converter is None ==> setting(MigrationFieldView::Rename { source, target, converter }, i, target.0) == Some(FieldInit::Moved(i))
        },
{
    if let Ok((MigrationFieldView::Rename { source, target, converter }, _)) = field_at(s, p) {
        lemma_alike_all_reflexive(target.1.tokens);
    }
}

/// Two types written alike, token for token: as many tokens, and each pair
/// of tokens alike (whether punctuation is joined aside, as printing ignores
/// it).
pub open spec fn written_alike(a: Seq<TokenView>, b: Seq<TokenView>) -> bool {
    a.len() == b.len() && forall|j: int| 0 <= j < a.len() ==> #[trigger] alike(a[j], b[j])
}

/// The law of a plain copy or rename: a copy or rename without converter
/// and with one source clones or moves that source as it is exactly when
/// the two types are written alike, token for token; otherwise the value is
/// converted with `into`. So two types of different lengths, or that differ
/// in any one token, give the converting form.
pub proof fn lemma_same_type_rule(change: MigrationFieldView, i: usize)
    ensures
        change matches MigrationFieldView::Copy { source, target, converter }
            ==> (converter is None && source.len() == 1) ==> setting(change, i, target.0) == Some(if written_alike(source[0].1.tokens, target.1.tokens) {
                FieldInit::Cloned(i)
            } else {
                FieldInit::ClonedInto(i)
            }),
        change matches MigrationFieldView::Rename { source, target, converter }
            ==> (converter is None && source.len() == 1) ==> setting(change, i, target.0) == Some(if written_alike(source[0].1.tokens, target.1.tokens) {
                FieldInit::Moved(i)
            } else {
                FieldInit::MovedInto(i)
            }),
{
    match change {
        MigrationFieldView::Copy { source, target, .. } => if source.len() > 0 {
            lemma_alike_all(source[0].1.tokens, target.1.tokens)
        },
        MigrationFieldView::Rename { source, target, .. } => if source.len() > 0 {
            lemma_alike_all(source[0].1.tokens, target.1.tokens)
        },
        _ => {},
    }
}

fn remove_sources(plan: &mut FieldMap<FieldInit>, source: &Vec<(String, crate::syntax::TypeRef)>)
    ensures
        final(plan).map() == old(plan).map().remove_keys(names_of(named_views(source@))),
        sorted_names(final(plan)@),
{
    let ghost start = plan.map();
    let ghost names = named_views(source@);
    let _ = plan.entries();
    let mut j: usize = 0;
    assert(start =~= start.remove_keys(names_of(names.subrange(0, 0))));
    while j < source.len()
        invariant
            j <= source.len(),
            names == named_views(source@),
            plan.map() == start.remove_keys(names_of(names.subrange(0, j as int))),
            sorted_names(plan@),
        decreases source.len() - j,
    {
        plan.remove(&source[j].0);
        proof {
            assert(names[j as int].0 == source@[j as int].0@);
            let longer = names.subrange(0, j + 1);
            let shorter = names.subrange(0, j as int);
            assert(names_of(longer) =~= names_of(shorter).insert(names[j as int].0)) by {
                assert forall|k: Seq<char>| names_of(longer).contains(k) implies names_of(shorter).insert(names[j as int].0).contains(k) by {
                    let w = choose|w: int| 0 <= w < longer.len() && #[trigger] longer[w].0 == k;
                    if w < j {
                        assert(shorter[w].0 == k);
                    }
                }
                assert forall|k: Seq<char>| names_of(shorter).insert(names[j as int].0).contains(k) implies names_of(longer).contains(k) by {
                    if k == names[j as int].0 {
                        assert(longer[j as int].0 == k);
                    } else {
                        let w = choose|w: int| 0 <= w < shorter.len() && #[trigger] shorter[w].0 == k;
                        assert(longer[w].0 == k);
                    }
                }
            }
            assert(plan.map() =~= start.remove_keys(names_of(names.subrange(0, j + 1))));
        }
        j += 1;
    }
    assert(names.subrange(0, source.len() as int) =~= names);
}

fn single_source_exec(source: &Vec<(String, crate::syntax::TypeRef)>, target: &(String, crate::syntax::TypeRef), i: usize, moved: bool) -> (r: FieldInit)
    requires
        source@.len() == 1,
    ensures
        r == single_source(named_views(source@), (target.0@, target.1@), i, moved),
{
    let same = crate::tokens::tokens_alike(source[0].1.tokens.as_slice(), target.1.tokens.as_slice());
    if same {
        if moved { FieldInit::Moved(i) } else { FieldInit::Cloned(i) }
    } else {
        if moved { FieldInit::MovedInto(i) } else { FieldInit::ClonedInto(i) }
    }
}

/// The plan of a step from a struct with fields `old_struct_fields`, by the
/// changes `convert_rules`: for each field of the newer struct, in the order
/// of their names, how it gets its value.
pub fn generate_older_version_impl<T>(old_struct_fields: &FieldMap<T>, convert_rules: &[MigrationField]) -> (r: Result<FieldMap<FieldInit>, PlanError>)
    ensures
        match r {
            Ok(plan) => plan_of(old_struct_fields.map(), field_views(convert_rules@)) == Ok::<Map<Seq<char>, FieldInit>, PlanError>(plan.map())
                && sorted_names(plan@),
            Err(e) => plan_of(old_struct_fields.map(), field_views(convert_rules@)) == Err::<Map<Seq<char>, FieldInit>, PlanError>(e),
        },
{
    let ghost old_map = old_struct_fields.map();
    let ghost changes = field_views(convert_rules@);
    let mut plan: FieldMap<FieldInit> = FieldMap::new();
    let old_entries = old_struct_fields.entries();
    let mut k: usize = 0;
    while k < old_entries.len()
        invariant
            k <= old_entries@.len(),
            crate::field_map::entry_views(old_entries@) == old_struct_fields@,
            sorted_names(old_struct_fields@),
            old_map == old_struct_fields.map(),
            plan.map() == Map::new(
                |n: Seq<char>| exists|j: int| 0 <= j < k && old_struct_fields@[j].0 == n,
                |n: Seq<char>| FieldInit::Carried,
            ),
            sorted_names(plan@),
        decreases old_entries@.len() - k,
    {
        plan.insert(old_entries[k].0.clone(), FieldInit::Carried);
        proof {
            let e = old_struct_fields@;
            assert(e[k as int].0 == old_entries@[k as int].0@);
            let target = Map::new(
                |n: Seq<char>| exists|j: int| 0 <= j < k + 1 && e[j].0 == n,
                |n: Seq<char>| FieldInit::Carried,
            );
            assert forall|n: Seq<char>| #![auto] plan.map().contains_key(n) <==> target.contains_key(n) by {
                if target.contains_key(n) && n != e[k as int].0 {
                    let w = choose|w: int| 0 <= w < k + 1 && e[w].0 == n;
                    assert(w < k);
                }
                if plan.map().contains_key(n) && n != e[k as int].0 {
                    let w = choose|w: int| 0 <= w < k && e[w].0 == n;
                    assert(0 <= w < k + 1 && e[w].0 == n);
                }
            }
            assert(plan.map() =~= target);
        }
        k += 1;
    }
    proof {
        assert(plan.map() =~= carried(old_map)) by {
            crate::field_map::lemma_map_of_keys(old_struct_fields@, Seq::empty());
            assert forall|n: Seq<char>| #![auto] plan.map().contains_key(n) <==> carried(old_map).contains_key(n) by {
                crate::field_map::lemma_map_of_keys(old_struct_fields@, n);
            }
        }
    }
    let mut i: usize = 0;
    while i < convert_rules.len()
        invariant
            i <= convert_rules@.len(),
            changes == field_views(convert_rules@),
            old_map == old_struct_fields.map(),
            plan_of(old_map, changes) == apply_changes(plan.map(), changes, i as int),
            sorted_names(plan@),
        decreases convert_rules@.len() - i,
    {
        let ghost before = plan.map();
        assert(changes[i as int] == convert_rules@[i as int]@);
        match &convert_rules[i] {
            MigrationField::Add { value, converter } => {
                let init = if converter.is_some() { FieldInit::Block(i) } else { FieldInit::Default(i) };
                plan.insert(value.0.clone(), init);
            },
            MigrationField::Copy { source, target, converter } => {
                if converter.is_some() {
                    plan.insert(target.0.clone(), FieldInit::Converted(i));
                } else if source.len() == 1 {
                    let init = single_source_exec(source, target, i, false);
                    plan.insert(target.0.clone(), init);
                } else {
                    assert(apply_change(before, changes[i as int], i) == Err::<Map<Seq<char>, FieldInit>, PlanError>(PlanError::CopyNeedsConverter));
                    assert(apply_changes(before, changes, i as int) == Err::<Map<Seq<char>, FieldInit>, PlanError>(PlanError::CopyNeedsConverter));
                    return Err(PlanError::CopyNeedsConverter);
                }
            },
            MigrationField::Remove { value } => {
                plan.remove(&value.0);
            },
            MigrationField::Rename { source, target, converter } => {
                remove_sources(&mut plan, source);
                if converter.is_some() {
                    plan.insert(target.0.clone(), FieldInit::Converted(i));
                } else if source.len() == 1 {
                    let init = single_source_exec(source, target, i, true);
                    plan.insert(target.0.clone(), init);
                } else {
                    assert(apply_change(before, changes[i as int], i) == Err::<Map<Seq<char>, FieldInit>, PlanError>(PlanError::RenameNeedsConverter));
                    assert(apply_changes(before, changes, i as int) == Err::<Map<Seq<char>, FieldInit>, PlanError>(PlanError::RenameNeedsConverter));
                    return Err(PlanError::RenameNeedsConverter);
                }
            },
        }
        assert(apply_change(before, changes[i as int], i) == Ok::<Map<Seq<char>, FieldInit>, PlanError>(plan.map()));
        i += 1;
    }
    Ok(plan)
}

/// The field initialisers of both conversions between the current struct
/// and its versioned twin: every field of the current struct, in the order
/// of the names, carried over under its own name (`__old.k.to_owned()`).
pub fn final_conversion<T>(final_struct_fields: &FieldMap<T>) -> (r: FieldMap<FieldInit>)
    ensures
        r@ == final_struct_fields@.map_values(|e: (Seq<char>, T)| (e.0, FieldInit::Carried)),
        r.map() == carried(final_struct_fields.map()),
{
    let r = final_struct_fields.keys_with(FieldInit::Carried);
    assert(r.map() =~= carried(final_struct_fields.map()));
    r
}

/// The fields of a struct that `plan` builds from an older struct whose
/// fields hold `old`, where `plan` carries fields over: a carried field `k`
/// holds the value of the older struct's field `k`, taking `to_owned` as
/// giving a value equal to the one it is called on.
pub open spec fn carried_values<V>(plan: Map<Seq<char>, FieldInit>, old: Map<Seq<char>, V>) -> Map<Seq<char>, V> {
    Map::new(
        |k: Seq<char>| plan.contains_key(k) && plan[k] == FieldInit::Carried && old.contains_key(k),
        |k: Seq<char>| old[k],
    )
}

/// The law of the round trip between the current struct and its versioned
/// twin. Both conversions carry every field of the current struct over
/// under its own name, so one conversion gives every field back, and
/// converting there and back again gives back the struct it started from.
pub proof fn lemma_final_round_trip<T, V>(fields: Map<Seq<char>, T>, values: Map<Seq<char>, V>)
    requires
        values.dom() == fields.dom(),
    ensures
        carried_values(carried(fields), values) == values,
        carried_values(carried(fields), carried_values(carried(fields), values)) == values,
{
    assert(carried_values(carried(fields), values) =~= values);
}

} // verus!
