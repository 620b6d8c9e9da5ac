//! The chain of steps that leads back from the current version of a struct.
//!
//! From the current version, the first step (in the order written) whose
//! target is that version is taken, then the first step whose target is that
//! step's source, and so on until no step leads to the version reached. Each
//! step taken gives one `From` conversion between neighbouring versions.

use vstd::prelude::*;
use crate::comment::{MigrationComment, MigrationCommentView};
use crate::migration::comment_views;

verus! {

/// The first step, from position `i` on, whose target is version `v`.
pub open spec fn first_into(steps: Seq<MigrationCommentView>, v: Seq<char>, i: int) -> Option<int>
    decreases steps.len() - i,
{
    if i < 0 || i >= steps.len() {
        None
    } else if steps[i].to == v {
        Some(i)
    } else {
        first_into(steps, v, i + 1)
    }
}

/// The steps taken back from version `v`, when at most `fuel` of them
/// (and one more look) are needed; `None` when more would be.
pub open spec fn walk(steps: Seq<MigrationCommentView>, v: Seq<char>, fuel: nat) -> Option<Seq<int>>
    decreases fuel,
{
    if fuel == 0 {
        None
    } else {
        match first_into(steps, v, 0) {
            None => Some(Seq::empty()),
            Some(i) => match walk(steps, steps[i].from, (fuel - 1) as nat) {
                None => None,
                Some(rest) => Some(seq![i] + rest),
            },
        }
    }
}

/// The walk back from `v` comes to an end.
pub open spec fn walk_ends(steps: Seq<MigrationCommentView>, v: Seq<char>) -> bool {
    exists|fuel: nat| #[trigger] walk(steps, v, fuel) is Some
}

/// The steps taken back from `v`, where the walk comes to an end.
pub open spec fn chain_of(steps: Seq<MigrationCommentView>, v: Seq<char>) -> Seq<int> {
    walk(steps, v, choose|fuel: nat| #[trigger] walk(steps, v, fuel) is Some).unwrap()
}

/// The first step found is one into `v`, and none before it is.
pub proof fn lemma_first_into(steps: Seq<MigrationCommentView>, v: Seq<char>, i: int)
    requires
        0 <= i,
    ensures
        first_into(steps, v, i) matches Some(j) ==> i <= j < steps.len() && steps[j].to == v
            && forall|k: int| i <= k < j ==> steps[k].to != v,
        first_into(steps, v, i) is None ==> forall|k: int| i <= k < steps.len() ==> steps[k].to != v,
    decreases steps.len() - i,
{
    if i < steps.len() && steps[i].to != v {
        lemma_first_into(steps, v, i + 1);
    }
}

/// More fuel does not change a walk that ends.
pub proof fn lemma_walk_fuel(steps: Seq<MigrationCommentView>, v: Seq<char>, f1: nat, f2: nat)
    requires
        walk(steps, v, f1) is Some,
        f1 <= f2,
    ensures
        walk(steps, v, f2) == walk(steps, v, f1),
    decreases f1,
{
    if let Some(i) = first_into(steps, v, 0) {
        lemma_walk_fuel(steps, steps[i].from, (f1 - 1) as nat, (f2 - 1) as nat);
    }
}

/// Every walk that ends gives the same steps, whatever fuel it had.
pub proof fn lemma_chain_of(steps: Seq<MigrationCommentView>, v: Seq<char>, fuel: nat)
    requires
        walk(steps, v, fuel) is Some,
    ensures
        walk(steps, v, fuel) == Some(chain_of(steps, v)),
{
    let f = choose|f: nat| #[trigger] walk(steps, v, f) is Some;
    if f <= fuel {
        lemma_walk_fuel(steps, v, f, fuel);
    } else {
        lemma_walk_fuel(steps, v, fuel, f);
    }
}

/// How the steps of a chain `c` back from `v` hang together: its first step
/// leads into `v`, each further step leads into the source of the one
/// before, each step is the first (in the order written) that leads where it
/// does, and no step leads into the source of the last one (into `v`, for an
/// empty chain).
pub open spec fn chain_links(steps: Seq<MigrationCommentView>, v: Seq<char>, c: Seq<int>) -> bool {
    &&& forall|t: int| 0 <= t < c.len() ==> 0 <= #[trigger] c[t] < steps.len()
    &&& c.len() > 0 ==> steps[c[0]].to == v
    &&& forall|t: int| 0 <= t < c.len() - 1 ==> steps[#[trigger] c[t + 1]].to == steps[c[t]].from
    &&& forall|t: int| 0 <= t < c.len() ==> first_into(steps, steps[#[trigger] c[t]].to, 0) == Some(c[t])
    &&& first_into(steps, if c.len() == 0 { v } else { steps[c[c.len() - 1]].from }, 0) is None
}

/// The law of a chain: the steps taken back from a version hang together as
/// [`chain_links`] says.
pub proof fn lemma_chain_links(steps: Seq<MigrationCommentView>, v: Seq<char>)
    requires
        walk_ends(steps, v),
    ensures
        chain_links(steps, v, chain_of(steps, v)),
{
    let f = choose|f: nat| #[trigger] walk(steps, v, f) is Some;
    lemma_chain_of(steps, v, f);
    lemma_walk_links(steps, v, f);
}

proof fn lemma_walk_links(steps: Seq<MigrationCommentView>, v: Seq<char>, fuel: nat)
    requires
        walk(steps, v, fuel) is Some,
    ensures
        chain_links(steps, v, walk(steps, v, fuel).unwrap()),
    decreases fuel,
{
    lemma_first_into(steps, v, 0);
    if let Some(i) = first_into(steps, v, 0) {
        let rest = walk(steps, steps[i].from, (fuel - 1) as nat).unwrap();
        lemma_walk_links(steps, steps[i].from, (fuel - 1) as nat);
        let c = seq![i] + rest;
        assert forall|t: int| 0 <= t < c.len() - 1 implies steps[#[trigger] c[t + 1]].to == steps[c[t]].from by {
            assert(c[t + 1] == rest[t]);
            if t > 0 {
                assert(c[t] == rest[t - 1]);
                assert(steps[rest[(t - 1) + 1]].to == steps[rest[t - 1]].from);
            }
        }
        assert forall|t: int| 0 <= t < c.len() implies first_into(steps, steps[#[trigger] c[t]].to, 0) == Some(c[t]) by {
            if t > 0 {
                assert(c[t] == rest[t - 1]);
            }
        }
        if rest.len() > 0 {
            assert(c[c.len() - 1] == rest[rest.len() - 1]);
        }
    }
}

/// `c` is the start of the walk back from `v`: each step in it is the first
/// that leads into the version reached before it.
pub open spec fn path(steps: Seq<MigrationCommentView>, v: Seq<char>, c: Seq<int>) -> bool
    decreases c.len(),
{
    c.len() == 0 || (first_into(steps, v, 0) == Some(c[0]) && path(steps, steps[c[0]].from, c.drop_first()))
}

/// The version reached after the steps `c` back from `v`.
pub open spec fn path_end(steps: Seq<MigrationCommentView>, v: Seq<char>, c: Seq<int>) -> Seq<char> {
    if c.len() == 0 {
        v
    } else {
        steps[c[c.len() - 1]].from
    }
}

/// A walk that ends goes through every start of itself.
proof fn lemma_walk_through_path(steps: Seq<MigrationCommentView>, v: Seq<char>, c: Seq<int>, fuel: nat)
    requires
        path(steps, v, c),
        walk(steps, v, fuel) is Some,
    ensures
        fuel > c.len(),
        walk(steps, path_end(steps, v, c), (fuel - c.len()) as nat) is Some,
        walk(steps, v, fuel).unwrap() == c + walk(steps, path_end(steps, v, c), (fuel - c.len()) as nat).unwrap(),
    decreases c.len(),
{
    if c.len() > 0 {
        let i = c[0];
        let next = steps[i].from;
        lemma_walk_through_path(steps, next, c.drop_first(), (fuel - 1) as nat);
        assert(path_end(steps, next, c.drop_first()) == path_end(steps, v, c));
        let tail = walk(steps, path_end(steps, v, c), (fuel - c.len()) as nat).unwrap();
        assert(seq![i] + (c.drop_first() + tail) =~= c + tail);
    } else {
        assert(c + walk(steps, v, fuel).unwrap() =~= walk(steps, v, fuel).unwrap());
    }
}

/// A walk that comes back to where it started never ends.
proof fn lemma_circle_never_ends(steps: Seq<MigrationCommentView>, w: Seq<char>, c: Seq<int>, fuel: nat)
    requires
        path(steps, w, c),
        c.len() > 0,
        path_end(steps, w, c) == w,
    ensures
        walk(steps, w, fuel) is None,
    decreases fuel,
{
    if walk(steps, w, fuel) is Some {
        lemma_walk_through_path(steps, w, c, fuel);
        lemma_circle_never_ends(steps, w, c, (fuel - c.len()) as nat);
    }
}

/// A walk that ends after the start `c` is that start and its rest.
proof fn lemma_walk_after_path(steps: Seq<MigrationCommentView>, v: Seq<char>, c: Seq<int>, fuel: nat)
    requires
        path(steps, v, c),
        walk(steps, path_end(steps, v, c), fuel) is Some,
    ensures
        walk(steps, v, fuel + c.len()) == Some(c + walk(steps, path_end(steps, v, c), fuel).unwrap()),
    decreases c.len(),
{
    if c.len() > 0 {
        let next = steps[c[0]].from;
        assert(path_end(steps, next, c.drop_first()) == path_end(steps, v, c));
        lemma_walk_after_path(steps, next, c.drop_first(), fuel);
        let tail = walk(steps, path_end(steps, v, c), fuel).unwrap();
        assert(seq![c[0]] + (c.drop_first() + tail) =~= c + tail);
        assert((fuel + c.len() - 1) as nat == fuel + c.drop_first().len());
    } else {
        assert(c + walk(steps, v, fuel).unwrap() =~= walk(steps, v, fuel).unwrap());
    }
}

/// One more step taken.
proof fn lemma_path_push(steps: Seq<MigrationCommentView>, v: Seq<char>, c: Seq<int>, i: int)
    requires
        path(steps, v, c),
        first_into(steps, path_end(steps, v, c), 0) == Some(i),
    ensures
        path(steps, v, c.push(i)),
        path_end(steps, v, c.push(i)) == steps[i].from,
    decreases c.len(),
{
    if c.len() > 0 {
        let next = steps[c[0]].from;
        assert(path_end(steps, next, c.drop_first()) == path_end(steps, v, c));
        lemma_path_push(steps, next, c.drop_first(), i);
        assert(c.push(i).drop_first() =~= c.drop_first().push(i));
        assert(c.push(i)[0] == c[0]);
    } else {
        assert(c.push(i).drop_first() =~= Seq::<int>::empty());
        assert(path(steps, steps[i].from, Seq::<int>::empty()));
        assert(c.push(i)[0] == i);
    }
}

/// A start splits into a shorter start and the rest from where it ends.
proof fn lemma_path_split(steps: Seq<MigrationCommentView>, v: Seq<char>, c: Seq<int>, a: int)
    requires
        path(steps, v, c),
        0 <= a <= c.len(),
    ensures
        path(steps, v, c.subrange(0, a)),
        path(steps, path_end(steps, v, c.subrange(0, a)), c.subrange(a, c.len() as int)),
        path_end(steps, path_end(steps, v, c.subrange(0, a)), c.subrange(a, c.len() as int)) == path_end(steps, v, c),
    decreases c.len(),
{
    if a == 0 {
        assert(c.subrange(0, c.len() as int) =~= c);
    } else {
        let next = steps[c[0]].from;
        lemma_path_split(steps, next, c.drop_first(), a - 1);
        assert(c.subrange(0, a).drop_first() =~= c.drop_first().subrange(0, a - 1));
        assert(c.drop_first().subrange(a - 1, c.len() - 1) =~= c.subrange(a, c.len() as int));
        assert(path_end(steps, next, c.drop_first().subrange(0, a - 1)) == path_end(steps, v, c.subrange(0, a)));
        if a == c.len() {
            assert(c.subrange(0, a) =~= c);
        } else {
            assert(path_end(steps, next, c.drop_first()) == path_end(steps, v, c));
        }
    }
}

/// A walk that ends is a start of itself.
proof fn lemma_walk_is_path(steps: Seq<MigrationCommentView>, v: Seq<char>, fuel: nat)
    requires
        walk(steps, v, fuel) is Some,
    ensures
        path(steps, v, walk(steps, v, fuel).unwrap()),
    decreases fuel,
{
    if let Some(i) = first_into(steps, v, 0) {
        let rest = walk(steps, steps[i].from, (fuel - 1) as nat).unwrap();
        lemma_walk_is_path(steps, steps[i].from, (fuel - 1) as nat);
        assert((seq![i] + rest).drop_first() =~= rest);
    }
}

/// Only the first step of a chain that ends leads into the version the walk
/// starts from: a later one would bring the walk back to where it started.
pub proof fn lemma_only_first_step_into_start(steps: Seq<MigrationCommentView>, v: Seq<char>)
    requires
        walk_ends(steps, v),
    ensures
        forall|t: int| 0 < t < chain_of(steps, v).len() ==> steps[#[trigger] chain_of(steps, v)[t]].to != v,
{
    let f = choose|f: nat| #[trigger] walk(steps, v, f) is Some;
    lemma_chain_of(steps, v, f);
    lemma_walk_is_path(steps, v, f);
    let c = chain_of(steps, v);
    assert forall|t: int| 0 < t < c.len() implies steps[#[trigger] c[t]].to != v by {
        if steps[c[t]].to == v {
            lemma_path_split(steps, v, c, t);
            let w = path_end(steps, v, c.subrange(0, t));
            let rest = c.subrange(t, c.len() as int);
            lemma_first_into(steps, w, 0);
            assert(rest[0] == c[t]);
            assert(steps[c[t]].to == w);
            lemma_circle_never_ends(steps, v, c.subrange(0, t), f);
        }
    }
}

/// A step written after the others is found only where none of them leads
/// to the same version.
proof fn lemma_first_into_push(steps: Seq<MigrationCommentView>, c: MigrationCommentView, w: Seq<char>, i: int)
    requires
        0 <= i <= steps.len(),
    ensures
        first_into(steps.push(c), w, i) == match first_into(steps, w, i) {
            Some(j) => Some(j),
            None => if c.to == w { Some(steps.len() as int) } else { None },
        },
    decreases steps.len() - i,
{
    if i < steps.len() {
        assert(steps.push(c)[i] == steps[i]);
        if steps[i].to != w {
            lemma_first_into_push(steps, c, w, i + 1);
        }
    } else {
        assert(steps.push(c)[i] == c);
        if c.to != w {
            assert(first_into(steps.push(c), w, i + 1) is None);
        }
    }
}

proof fn lemma_walk_push(steps: Seq<MigrationCommentView>, c: MigrationCommentView, w: Seq<char>, fuel: nat)
    requires
        walk(steps, w, fuel) is Some,
        c.to != path_end(steps, w, walk(steps, w, fuel).unwrap()),
    ensures
        walk(steps.push(c), w, fuel) == walk(steps, w, fuel),
    decreases fuel,
{
    lemma_first_into_push(steps, c, w, 0);
    lemma_first_into(steps, w, 0);
    if let Some(i) = first_into(steps, w, 0) {
        let next = steps[i].from;
        let rest = walk(steps, next, (fuel - 1) as nat).unwrap();
        assert(steps.push(c)[i] == steps[i]);
        let whole = seq![i] + rest;
        assert(path_end(steps, next, rest) == path_end(steps, w, whole)) by {
            if rest.len() > 0 {
                assert(whole[whole.len() - 1] == rest[rest.len() - 1]);
            }
        }
        lemma_walk_push(steps, c, next, (fuel - 1) as nat);
    }
}

/// The law of later steps. A step written after the others leaves the chain
/// back from `v` as it was when its target is none of the versions the walk
/// reaches (`v` included), or when an earlier step has the same target.
pub proof fn lemma_chain_ignores_later_step(steps: Seq<MigrationCommentView>, v: Seq<char>, c: MigrationCommentView)
    requires
        walk_ends(steps, v),
        (forall|t: int| 0 <= t <= chain_of(steps, v).len()
            ==> c.to != #[trigger] path_end(steps, v, chain_of(steps, v).subrange(0, t)))
        || (exists|j: int| 0 <= j < steps.len() && #[trigger] steps[j].to == c.to),
    ensures
        walk_ends(steps.push(c), v),
        chain_of(steps.push(c), v) == chain_of(steps, v),
{
    let f = choose|f: nat| #[trigger] walk(steps, v, f) is Some;
    lemma_chain_of(steps, v, f);
    lemma_walk_links(steps, v, f);
    let ch = chain_of(steps, v);
    let last = path_end(steps, v, ch);
    assert(ch.subrange(0, ch.len() as int) =~= ch);
    if exists|j: int| 0 <= j < steps.len() && #[trigger] steps[j].to == c.to {
        let j = choose|j: int| 0 <= j < steps.len() && #[trigger] steps[j].to == c.to;
        lemma_first_into(steps, last, 0);
        assert(first_into(steps, last, 0) is None);
    } else {
        assert(c.to != path_end(steps, v, ch.subrange(0, ch.len() as int)));
    }
    assert(c.to != last);
    lemma_walk_push(steps, c, v, f);
    assert(walk(steps.push(c), v, f) is Some);
    lemma_chain_of(steps.push(c), v, f);
}

pub open spec fn positions(v: Seq<usize>) -> Seq<int> {
    v.map_values(|i: usize| i as int)
}

/// The positions of the steps taken back from `final_version`, in the order
/// they are taken; `None` when the walk never ends, because it comes back to
/// a version it has already reached.
pub fn version_chain(final_version: &String, versions: &[MigrationComment]) -> (r: Option<Vec<usize>>)
    ensures
        r is Some <==> walk_ends(comment_views(versions@), final_version@),
        r matches Some(c) ==> positions(c@) == chain_of(comment_views(versions@), final_version@),
        r matches Some(c) ==> c@.len() <= versions@.len() && positions(c@).no_duplicates()
            && forall|t: int| 0 <= t < c@.len() ==> #[trigger] c@[t] < versions@.len(),
{
    let ghost steps = comment_views(versions@);
    let ghost v = final_version@;
    let mut out: Vec<usize> = Vec::new();
    let mut current = final_version.clone();
    assert(positions(out@) =~= Seq::<int>::empty());
    loop
        invariant
            steps == comment_views(versions@),
            v == final_version@,
            path(steps, v, positions(out@)),
            current@ == path_end(steps, v, positions(out@)),
            positions(out@).no_duplicates(),
            forall|t: int| 0 <= t < out@.len() ==> #[trigger] out@[t] < versions@.len(),
            out@.len() <= versions@.len(),
        decreases versions@.len() - out@.len(),
    {
        let mut i: usize = 0;
        let mut found: Option<usize> = None;
        while i < versions.len()
            invariant_except_break
                found is None,
            invariant
                steps == comment_views(versions@),
                i <= versions@.len(),
                first_into(steps, current@, 0) == first_into(steps, current@, i as int),
            ensures
                found matches Some(j) ==> j < versions@.len() && first_into(steps, current@, 0) == Some(j as int),
                found is None ==> first_into(steps, current@, 0) is None,
            decreases versions@.len() - i,
        {
            assert(steps[i as int] == versions@[i as int]@);
            if versions[i].to == current {
                found = Some(i);
                break;
            }
            i += 1;
        }
        match found {
            None => {
                proof {
                    let c = positions(out@);
                    assert(walk(steps, current@, 1) == Some(Seq::<int>::empty()));
                    lemma_walk_after_path(steps, v, c, 1);
                    assert(c + Seq::<int>::empty() =~= c);
                    lemma_chain_of(steps, v, (1 + c.len()) as nat);
                }
                return Some(out);
            },
            Some(i) => {
                let ghost c = positions(out@);
                let mut seen = false;
                let mut a: usize = 0;
                while a < out.len()
                    invariant_except_break
                        !seen,
                    invariant
                        a <= out@.len(),
                        forall|t: int| 0 <= t < a ==> out@[t] != i,
                    ensures
                        seen ==> a < out@.len() && out@[a as int] == i,
                        !seen ==> forall|t: int| 0 <= t < out@.len() ==> out@[t] != i,
                    decreases out@.len() - a,
                {
                    if out[a] == i {
                        seen = true;
                        break;
                    }
                    a += 1;
                }
                if seen {
                    proof {
                        let a = a as int;
                        lemma_path_split(steps, v, c, a);
                        let w = path_end(steps, v, c.subrange(0, a));
                        let rest = c.subrange(a, c.len() as int);
                        lemma_first_into(steps, w, 0);
                        lemma_first_into(steps, current@, 0);
                        assert(rest[0] == c[a]);
                        assert(steps[i as int].to == current@);
                        assert(steps[c[a]].to == w);
                        assert(path(steps, w, rest.push(i as int).subrange(0, rest.len() as int))) by {
                            assert(rest.push(i as int).subrange(0, rest.len() as int) =~= rest);
                        }
                        assert(w == current@);
                        assert forall|fuel: nat| !(#[trigger] walk(steps, v, fuel) is Some) by {
                            if walk(steps, v, fuel) is Some {
                                lemma_walk_through_path(steps, v, c.subrange(0, a), fuel);
                                lemma_circle_never_ends(steps, w, rest, (fuel - a) as nat);
                            }
                        }
                    }
                    return None;
                }
                proof {
                    lemma_path_push(steps, v, c, i as int);
                    assert(positions(out@.push(i)) =~= c.push(i as int));
                    let c2 = c.push(i as int);
                    assert forall|x: int, y: int| 0 <= x < y < c2.len() implies c2[x] != c2[y] by {
                        if y == c.len() {
                            assert(out@[x] != i);
                        }
                    }
                    let indices = c2.to_set();
                    c2.unique_seq_to_set();
                    vstd::set_lib::lemma_int_range(0, versions@.len() as int);
                    assert(indices.subset_of(vstd::set_lib::set_int_range(0, versions@.len() as int))) by {
                        assert forall|x: int| indices.contains(x) implies 0 <= x < versions@.len() by {
                            let t = choose|t: int| 0 <= t < c2.len() && c2[t] == x;
                            if t < c.len() {
                                assert(out@[t] < versions@.len());
                            }
                        }
                    }
                    vstd::set_lib::lemma_len_subset(indices, vstd::set_lib::set_int_range(0, versions@.len() as int));
                }
                out.push(i);
                current = versions[i].from.clone();
            },
        }
    }
}

/// One `From` conversion of a chain: the step it follows, and whether the
/// step leads into the current version itself.
#[derive(Clone, Copy, Debug, PartialEq, Eq, Structural)]
pub struct ChainStep {
    pub step: usize,
    pub into_current: bool,
}

/// The steps back from `final_version`, each marked with whether it leads
/// into `final_version` itself (only the first one can); `None` when the walk
/// never ends.
pub fn migration_steps(final_version: &String, versions: &[MigrationComment]) -> (r: Option<Vec<ChainStep>>)
    ensures
        r is Some <==> walk_ends(comment_views(versions@), final_version@),
        r matches Some(v) ==> {
            &&& v@.len() == chain_of(comment_views(versions@), final_version@).len()
            &&& forall|t: int| 0 <= t < v@.len() ==> {
                &&& #[trigger] v@[t].step == chain_of(comment_views(versions@), final_version@)[t]
                &&& v@[t].into_current == (versions@[v@[t].step as int].to@ == final_version@)
            }
        },
{
    let chain = match version_chain(final_version, versions) {
        Some(c) => c,
        None => return None,
    };
    let ghost steps = comment_views(versions@);
    proof {
        lemma_only_first_step_into_start(steps, final_version@);
        lemma_chain_links(steps, final_version@);
    }
    let mut out: Vec<ChainStep> = Vec::new();
    let mut t: usize = 0;
    while t < chain.len()
        invariant
            t <= chain@.len(),
            steps == comment_views(versions@),
            positions(chain@) == chain_of(steps, final_version@),
            chain_links(steps, final_version@, chain_of(steps, final_version@)),
            forall|u: int| 0 < u < chain_of(steps, final_version@).len() ==> steps[#[trigger] chain_of(steps, final_version@)[u]].to != final_version@,
            out@.len() == t,
            forall|u: int| 0 <= u < t ==> {
                &&& #[trigger] out@[u].step == chain_of(steps, final_version@)[u]
                &&& out@[u].into_current == (versions@[out@[u].step as int].to@ == final_version@)
            },
        decreases chain@.len() - t,
    {
        let ghost c = chain_of(steps, final_version@);
        assert(positions(chain@)[t as int] == chain@[t as int] as int);
        assert(0 <= c[t as int] < steps.len());
        assert(steps[c[t as int]] == versions@[chain@[t as int] as int]@);
        out.push(ChainStep { step: chain[t], into_current: t == 0 });
        t += 1;
    }
    Some(out)
}

/// One `From` conversion that a chain of steps gives.
#[derive(Clone, Copy, Debug, PartialEq, Eq, Structural)]
pub enum FromImpl {
    /// From the source version of step `step` into its target version (into
    /// the current struct itself when `into_current`), field by field.
    Step { step: usize, into_current: bool },
    /// From the source version of step `step` into the current struct, by way
    /// of the step's target version.
    Through { step: usize },
    /// From the versioned twin of the current struct into the current struct.
    FromFinal,
    /// From the current struct into its versioned twin.
    IntoFinal,
}

/// The conversions that one step of a chain gives: the step itself, and,
/// unless it already leads into the current struct, one more into it.
pub open spec fn step_impls(s: ChainStep) -> Seq<FromImpl> {
    if s.into_current {
        seq![FromImpl::Step { step: s.step, into_current: true }]
    } else {
        seq![FromImpl::Step { step: s.step, into_current: false }, FromImpl::Through { step: s.step }]
    }
}

/// The conversions of the steps of a chain, in the order of the chain.
pub open spec fn chain_impls(chain: Seq<ChainStep>) -> Seq<FromImpl>
    decreases chain.len(),
{
    if chain.len() == 0 {
        Seq::empty()
    } else {
        chain_impls(chain.drop_last()) + step_impls(chain.last())
    }
}

/// How many steps of a chain do not lead into the current struct.
pub open spec fn older_steps(chain: Seq<ChainStep>) -> nat
    decreases chain.len(),
{
    if chain.len() == 0 {
        0
    } else {
        older_steps(chain.drop_last()) + if chain.last().into_current { 0nat } else { 1nat }
    }
}

/// The law of the conversions of a chain. Step number `t` of the chain
/// gives its own conversion, at position `t` plus the number of earlier
/// steps that do not lead into the current struct; a step that does not
/// lead into the current struct is followed at once by its conversion into
/// the current struct, by way of its target. There is nothing else: one
/// conversion per step, and one more per step that does not lead into the
/// current struct.
pub proof fn lemma_chain_impls_layout(chain: Seq<ChainStep>)
    ensures
        chain_impls(chain).len() == chain.len() + older_steps(chain),
        forall|t: int| 0 <= t < chain.len() ==> {
            let at = t + older_steps(#[trigger] chain.subrange(0, t));
            &&& at < chain_impls(chain).len()
            &&& chain_impls(chain)[at] == (FromImpl::Step { step: chain[t].step, into_current: chain[t].into_current })
            &&& !chain[t].into_current ==> at + 1 < chain_impls(chain).len()
                && chain_impls(chain)[at + 1] == (FromImpl::Through { step: chain[t].step })
        },
    decreases chain.len(),
{
    if chain.len() > 0 {
        let front = chain.drop_last();
        let last = chain.last();
        lemma_chain_impls_layout(front);
        let n = chain.len() - 1;
        assert forall|t: int| 0 <= t < chain.len() implies {
            let at = t + older_steps(#[trigger] chain.subrange(0, t));
            &&& at < chain_impls(chain).len()
            &&& chain_impls(chain)[at] == (FromImpl::Step { step: chain[t].step, into_current: chain[t].into_current })
            &&& !chain[t].into_current ==> at + 1 < chain_impls(chain).len()
                && chain_impls(chain)[at + 1] == (FromImpl::Through { step: chain[t].step })
        } by {
            if t < n {
                assert(chain.subrange(0, t) =~= front.subrange(0, t));
                assert(chain[t] == front[t]);
                let at = t + older_steps(front.subrange(0, t));
                assert(chain_impls(front)[at] == chain_impls(chain)[at]);
                if !chain[t].into_current {
                    assert(chain_impls(front)[at + 1] == chain_impls(chain)[at + 1]);
                }
            } else {
                assert(chain.subrange(0, t) =~= front);
            }
        }
    }
}

/// Every conversion that a chain gives, in the order they are written out:
/// those of each step, newest first, then the pair between the current
/// struct and its versioned twin.
pub fn from_impls(chain: &[ChainStep]) -> (r: Vec<FromImpl>)
    ensures
        r@ == chain_impls(chain@) + seq![FromImpl::FromFinal, FromImpl::IntoFinal],
        r@.len() == chain@.len() + older_steps(chain@) + 2,
{
    proof {
        lemma_chain_impls_layout(chain@);
    }
    let mut out: Vec<FromImpl> = Vec::new();
    let mut t: usize = 0;
    while t < chain.len()
        invariant
            t <= chain@.len(),
            out@ == chain_impls(chain@.subrange(0, t as int)),
        decreases chain@.len() - t,
    {
        let s = chain[t];
        proof {
            let next = chain@.subrange(0, t + 1);
            assert(next.drop_last() =~= chain@.subrange(0, t as int));
            assert(next.last() == s);
        }
        out.push(FromImpl::Step { step: s.step, into_current: s.into_current });
        if !s.into_current {
            out.push(FromImpl::Through { step: s.step });
        }
        proof {
            let next = chain@.subrange(0, t + 1);
            assert(out@ =~= chain_impls(next.drop_last()) + step_impls(s));
        }
        t += 1;
    }
    assert(chain@.subrange(0, chain@.len() as int) =~= chain@);
    out.push(FromImpl::FromFinal);
    out.push(FromImpl::IntoFinal);
    out
}

} // verus!
