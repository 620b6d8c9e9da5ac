//! Token trees as the library reads them.
//!
//! A [`Token`] pairs a plain description of one token tree (an identifier, a
//! punctuation character, a literal, or a delimited group of further tokens)
//! with the `proc_macro2` tree it was read from, so that spans survive into the
//! generated code. Invisible groups are flattened when a stream is read, as
//! `syn`'s cursor looks through them when it reads identifiers, punctuation,
//! literals and delimited groups; every group that held one, at any depth, is
//! rebuilt around the flattened tokens, so the tree a token holds is read
//! exactly as its model says. Each token also keeps the tree as it was
//! written, invisible groups inside it kept, which looked through is the
//! token. `Token`'s invariant states both.

use vstd::prelude::*;

verus! {

#[verifier::external_type_specification]
#[verifier::external_body]
pub struct ExTokenTree(proc_macro2::TokenTree);

#[verifier::external_type_specification]
#[verifier::external_body]
pub struct ExTokenStream(proc_macro2::TokenStream);

/// The visible delimiters of a group. Invisible groups are flattened away
/// when tokens are read.
#[derive(Clone, Copy, Debug, PartialEq, Eq, Structural)]
pub enum Delim {
    Paren,
    Brace,
    Bracket,
}

/// What a token tree is, as plain values.
pub enum TokenKind {
    /// An identifier, written as `to_string` shows it (`r#` included).
    Ident(String),
    /// A punctuation character, and whether it is joined to the next one.
    Punct(char, bool),
    /// A literal, written as `to_string` shows it.
    Literal(String),
    /// A delimited group and the tokens inside it.
    Group(Delim, Vec<Token>),
}

/// One token tree of the input: what it is, the tree it is read as, and the
/// tree as it was written, invisible groups inside it kept.
pub struct Token {
    kind: TokenKind,
    raw: proc_macro2::TokenTree,
    written: proc_macro2::TokenTree,
}

/// The mathematical model of a token tree.
pub enum TokenView {
    Ident(Seq<char>),
    Punct(char, bool),
    Literal(Seq<char>),
    Group(Delim, Seq<TokenView>),
}

spec fn token_view(t: Token) -> TokenView
    decreases t,
{
    match t.kind {
        TokenKind::Ident(s) => TokenView::Ident(s@),
        TokenKind::Punct(c, joint) => TokenView::Punct(c, joint),
        TokenKind::Literal(s) => TokenView::Literal(s@),
        TokenKind::Group(d, inner) => TokenView::Group(d, tokens_view(inner@)),
    }
}

/// The model of a sequence of tokens, token by token.
pub closed spec fn tokens_view(s: Seq<Token>) -> Seq<TokenView>
    decreases s,
{
    if s.len() == 0 {
        Seq::empty()
    } else {
        tokens_view(s.subrange(0, s.len() - 1)).push(token_view(s[s.len() - 1]))
    }
}

impl View for Token {
    type V = TokenView;

    closed spec fn view(&self) -> TokenView {
        token_view(*self)
    }
}

impl View for TokenKind {
    type V = TokenView;

    open spec fn view(&self) -> TokenView {
        match self {
            TokenKind::Ident(s) => TokenView::Ident(s@),
            TokenKind::Punct(c, joint) => TokenView::Punct(*c, *joint),
            TokenKind::Literal(s) => TokenView::Literal(s@),
            TokenKind::Group(d, inner) => TokenView::Group(*d, tokens_view(inner@)),
        }
    }
}

/// The model of a sequence has one entry per token, each the token's model.
pub proof fn lemma_tokens_view(s: Seq<Token>)
    ensures
        tokens_view(s).len() == s.len(),
        forall|i: int| 0 <= i < s.len() ==> tokens_view(s)[i] == s[i]@,
    decreases s.len(),
{
    if s.len() > 0 {
        lemma_tokens_view(s.subrange(0, s.len() - 1));
    }
}

/// The model of a sequence is as long as the sequence.
pub broadcast proof fn lemma_tokens_view_len(s: Seq<Token>)
    ensures
        #[trigger] tokens_view(s).len() == s.len(),
{
    lemma_tokens_view(s);
}

/// Each entry of the model of a sequence is the model of its token.
pub broadcast proof fn lemma_tokens_view_index(s: Seq<Token>, i: int)
    requires
        0 <= i < s.len(),
    ensures
        #[trigger] tokens_view(s)[i] == s[i]@,
{
    lemma_tokens_view(s);
}

pub broadcast group group_tokens_view {
    lemma_tokens_view_len,
    lemma_tokens_view_index,
}

/// Taking a stretch of tokens and taking their models commute.
pub proof fn lemma_tokens_view_subrange(s: Seq<Token>, lo: int, hi: int)
    requires
        0 <= lo <= hi <= s.len(),
    ensures
        tokens_view(s.subrange(lo, hi)) == tokens_view(s).subrange(lo, hi),
{
    lemma_tokens_view(s);
    lemma_tokens_view(s.subrange(lo, hi));
    assert(tokens_view(s.subrange(lo, hi)) =~= tokens_view(s).subrange(lo, hi));
}

/// Appending a token appends its model.
pub proof fn lemma_tokens_view_push(s: Seq<Token>, t: Token)
    ensures
        tokens_view(s.push(t)) == tokens_view(s).push(t@),
{
    lemma_tokens_view(s);
    lemma_tokens_view(s.push(t));
    assert(tokens_view(s.push(t)) =~= tokens_view(s).push(t@));
}

impl Token {
    /// The tree a token holds is read as its model says: tokens are only
    /// built from the trees they model, and their trees hold no invisible
    /// groups. The tree as written is the same token once the invisible
    /// groups inside it are looked through.
    #[verifier::type_invariant]
    spec fn agrees(self) -> bool {
        &&& tree_reading(self.raw) == as_tree(token_view(self))
        &&& flat_one(tree_reading(self.written)) == seq![token_view(self)]
    }

    /// What this token is.
    pub fn kind(&self) -> (k: &TokenKind)
        ensures
            k@ == self@,
    {
        &self.kind
    }

    /// The `proc_macro2` tree this token holds.
    pub closed spec fn tree(self) -> proc_macro2::TokenTree {
        self.raw
    }

    /// The `proc_macro2` tree this token was read from.
    pub fn raw(&self) -> (r: &proc_macro2::TokenTree)
        ensures
            *r == self.tree(),
            tree_reading(*r) == as_tree(self@),
    {
        proof {
            use_type_invariant(self);
        }
        &self.raw
    }

    /// The `proc_macro2` tree this token was written as, invisible groups
    /// inside it kept: looked through, it is this token.
    pub fn written(&self) -> (r: &proc_macro2::TokenTree)
        ensures
            flat_one(tree_reading(*r)) == seq![self@],
    {
        proof {
            use_type_invariant(self);
        }
        &self.written
    }

    /// A copy of this token, with the same model.
    pub fn copy(&self) -> (r: Token)
        ensures
            r@ == self@,
        decreases self,
    {
        proof {
            use_type_invariant(self);
        }
        let kind = match &self.kind {
            TokenKind::Ident(s) => TokenKind::Ident(s.clone()),
            TokenKind::Punct(c, joint) => TokenKind::Punct(*c, *joint),
            TokenKind::Literal(s) => TokenKind::Literal(s.clone()),
            TokenKind::Group(d, inner) => TokenKind::Group(*d, copy_tokens(inner.as_slice())),
        };
        Token { kind, raw: clone_tree(&self.raw), written: clone_tree(&self.written) }
    }
}

impl Clone for Token {
    fn clone(&self) -> (r: Self)
        ensures
            r@ == self@,
    {
        self.copy()
    }
}

/// A copy of a sequence of tokens, with the same model.
pub fn copy_tokens(toks: &[Token]) -> (r: Vec<Token>)
    ensures
        tokens_view(r@) == tokens_view(toks@),
    decreases toks@,
{
    let mut out: Vec<Token> = Vec::new();
    let mut i: usize = 0;
    while i < toks.len()
        invariant
            i <= toks.len(),
            tokens_view(out@) == tokens_view(toks@.subrange(0, i as int)),
        decreases toks.len() - i,
    {
        let t = toks[i].copy();
        proof {
            lemma_tokens_view_push(out@, t);
            lemma_tokens_view_push(toks@.subrange(0, i as int), toks@[i as int]);
            assert(toks@.subrange(0, i as int).push(toks@[i as int]) =~= toks@.subrange(0, i + 1));
        }
        out.push(t);
        i += 1;
    }
    assert(toks@.subrange(0, toks.len() as int) =~= toks@);
    out
}

/// Two tokens written alike, whether punctuation is joined aside: the same
/// identifier or literal text, the same punctuation character, or groups of
/// the same delimiter around tokens written alike. This is how the printed
/// text of two types compares, since printing sets the spacing itself.
pub open spec fn alike(a: TokenView, b: TokenView) -> bool
    decreases a,
{
    match a {
        TokenView::Punct(c, _) => b is Punct && b->Punct_0 == c,
        TokenView::Group(d, xs) => b is Group && b->Group_0 == d && alike_all(xs, b->Group_1),
        _ => a == b,
    }
}

/// Two sequences of tokens written alike, token by token.
pub open spec fn alike_all(xs: Seq<TokenView>, ys: Seq<TokenView>) -> bool
    decreases xs,
{
    xs.len() == ys.len() && (xs.len() == 0 || (alike_all(xs.subrange(0, xs.len() - 1), ys.subrange(0, ys.len() - 1))
        && alike(xs[xs.len() - 1], ys[ys.len() - 1])))
}

/// Sequences are written alike when each of their tokens is.
pub proof fn lemma_alike_all(xs: Seq<TokenView>, ys: Seq<TokenView>)
    ensures
        alike_all(xs, ys) == (xs.len() == ys.len() && forall|i: int| 0 <= i < xs.len() ==> #[trigger] alike(xs[i], ys[i])),
    decreases xs.len(),
{
    if xs.len() > 0 && xs.len() == ys.len() {
        let xf = xs.subrange(0, xs.len() - 1);
        let yf = ys.subrange(0, ys.len() - 1);
        lemma_alike_all(xf, yf);
        if alike_all(xs, ys) {
            assert forall|i: int| 0 <= i < xs.len() implies #[trigger] alike(xs[i], ys[i]) by {
                if i < xs.len() - 1 {
                    assert(xf[i] == xs[i] && yf[i] == ys[i]);
                }
            }
        }
        if forall|i: int| 0 <= i < xs.len() ==> #[trigger] alike(xs[i], ys[i]) {
            assert forall|i: int| 0 <= i < xf.len() implies #[trigger] alike(xf[i], yf[i]) by {
                assert(alike(xs[i], ys[i]));
            }
            assert(alike(xs[xs.len() - 1], ys[ys.len() - 1]));
            assert(alike_all(xs, ys));
        }
    }
}

/// Every token is written like itself.
pub proof fn lemma_alike_reflexive(a: TokenView)
    ensures
        alike(a, a),
    decreases a,
{
    if let TokenView::Group(d, xs) = a {
        lemma_alike_all_reflexive(xs);
    }
}

/// Every sequence of tokens is written like itself.
pub proof fn lemma_alike_all_reflexive(xs: Seq<TokenView>)
    ensures
        alike_all(xs, xs),
    decreases xs,
{
    if xs.len() > 0 {
        lemma_alike_all_reflexive(xs.subrange(0, xs.len() - 1));
        lemma_alike_reflexive(xs[xs.len() - 1]);
    }
}

/// Whether two tokens are written alike, whether punctuation is joined
/// aside.
pub fn token_alike(a: &Token, b: &Token) -> (r: bool)
    ensures
        r == alike(a@, b@),
    decreases a,
{
    match (&a.kind, &b.kind) {
        (TokenKind::Ident(x), TokenKind::Ident(y)) => *x == *y,
        (TokenKind::Punct(c, _), TokenKind::Punct(d, _)) => *c == *d,
        (TokenKind::Literal(x), TokenKind::Literal(y)) => *x == *y,
        (TokenKind::Group(d, xs), TokenKind::Group(e, ys)) => {
            if *d != *e {
                return false;
            }
            tokens_alike(xs.as_slice(), ys.as_slice())
        },
        _ => false,
    }
}

/// Whether two sequences of tokens are written alike, token by token.
pub fn tokens_alike(a: &[Token], b: &[Token]) -> (r: bool)
    ensures
        r == alike_all(tokens_view(a@), tokens_view(b@)),
    decreases a@,
{
    proof {
        lemma_tokens_view(a@);
        lemma_tokens_view(b@);
        lemma_alike_all(tokens_view(a@), tokens_view(b@));
    }
    if a.len() != b.len() {
        return false;
    }
    let mut i: usize = 0;
    while i < a.len()
        invariant
            i <= a@.len(),
            a@.len() == b@.len(),
            tokens_view(a@).len() == a@.len(),
            tokens_view(b@).len() == b@.len(),
            alike_all(tokens_view(a@), tokens_view(b@)) == forall|t: int| 0 <= t < a@.len() ==> #[trigger] alike(tokens_view(a@)[t], tokens_view(b@)[t]),
            forall|t: int| 0 <= t < i ==> #[trigger] alike(tokens_view(a@)[t], tokens_view(b@)[t]),
        decreases a@.len() - i,
    {
        proof {
            lemma_tokens_view_index(a@, i as int);
            lemma_tokens_view_index(b@, i as int);
        }
        if !token_alike(&a[i], &b[i]) {
            return false;
        }
        i += 1;
    }
    true
}

/// The model of a `proc_macro2` tree as it stands in a stream, invisible
/// groups (`None` delimiter) included.
pub enum TreeView {
    Ident(Seq<char>),
    Punct(char, bool),
    Literal(Seq<char>),
    Group(Option<Delim>, Seq<TreeView>),
}

/// What a `proc_macro2::TokenStream` holds: its top-level trees, in order,
/// each as an identifier's or literal's `to_string`, a punctuation's
/// `as_char` and whether it is joined, or a group's delimiter and trees.
pub uninterp spec fn stream_trees_of(stream: proc_macro2::TokenStream) -> Seq<TreeView>;

/// One `proc_macro2` tree taken apart into plain values.
enum Piece {
    Ident(String),
    Punct(char, bool),
    Literal(String),
    Group(Option<Delim>, proc_macro2::TokenStream),
}

/// A piece read off a tree is that tree's model; a group's stream holds the
/// group's trees.
spec fn piece_is(p: Piece, t: TreeView) -> bool {
    match (p, t) {
        (Piece::Ident(s), TreeView::Ident(u)) => s@ == u,
        (Piece::Punct(c, j), TreeView::Punct(d, k)) => c == d && j == k,
        (Piece::Literal(s), TreeView::Literal(u)) => s@ == u,
        (Piece::Group(d, inner), TreeView::Group(e, trees)) => d == e && stream_trees_of(inner) == trees,
        _ => false,
    }
}

/// The tokens a stream's trees are read as: invisible groups give their
/// tokens in their place.
pub open spec fn flatten(trees: Seq<TreeView>) -> Seq<TokenView>
    decreases trees,
{
    if trees.len() == 0 {
        Seq::empty()
    } else {
        flatten(trees.subrange(0, trees.len() - 1)) + flat_one(trees[trees.len() - 1])
    }
}

/// The tokens one tree is read as.
pub open spec fn flat_one(t: TreeView) -> Seq<TokenView>
    decreases t,
{
    match t {
        TreeView::Ident(s) => seq![TokenView::Ident(s)],
        TreeView::Punct(c, joint) => seq![TokenView::Punct(c, joint)],
        TreeView::Literal(s) => seq![TokenView::Literal(s)],
        TreeView::Group(None, inner) => flatten(inner),
        TreeView::Group(Some(d), inner) => seq![TokenView::Group(d, flatten(inner))],
    }
}

/// How many levels deep groups nest in a sequence of trees; a sequence
/// without groups counts one.
pub open spec fn nesting(trees: Seq<TreeView>) -> nat
    decreases trees,
{
    if trees.len() == 0 {
        1
    } else {
        let a = nesting(trees.subrange(0, trees.len() - 1));
        let b = tree_nesting(trees[trees.len() - 1]);
        if a >= b { a } else { b }
    }
}

/// How many levels deep groups nest in one tree, the tree's own level
/// included.
pub open spec fn tree_nesting(t: TreeView) -> nat
    decreases t,
{
    match t {
        TreeView::Group(_, inner) => 1 + nesting(inner),
        _ => 1,
    }
}

/// Whether an invisible group stands anywhere in the sequence, at any depth.
pub open spec fn any_invisible(trees: Seq<TreeView>) -> bool
    decreases trees,
{
    trees.len() > 0 && (any_invisible(trees.subrange(0, trees.len() - 1)) || tree_invisible(trees[trees.len() - 1]))
}

/// Whether a tree is an invisible group or holds one at any depth.
pub open spec fn tree_invisible(t: TreeView) -> bool
    decreases t,
{
    match t {
        TreeView::Group(None, _) => true,
        TreeView::Group(Some(_), inner) => any_invisible(inner),
        _ => false,
    }
}

/// How `proc_macro2` reads a tree: an identifier's or literal's
/// `to_string`, a punctuation's `as_char` and whether it is joined, or a
/// group's delimiter and trees.
pub uninterp spec fn tree_reading(tree: proc_macro2::TokenTree) -> TreeView;

/// The tree a token stands for.
pub open spec fn as_tree(t: TokenView) -> TreeView
    decreases t,
{
    match t {
        TokenView::Ident(s) => TreeView::Ident(s),
        TokenView::Punct(c, joint) => TreeView::Punct(c, joint),
        TokenView::Literal(s) => TreeView::Literal(s),
        TokenView::Group(d, inner) => TreeView::Group(Some(d), as_trees(inner)),
    }
}

/// The trees a sequence of tokens stands for.
pub open spec fn as_trees(s: Seq<TokenView>) -> Seq<TreeView>
    decreases s,
{
    if s.len() == 0 {
        Seq::empty()
    } else {
        as_trees(s.subrange(0, s.len() - 1)).push(as_tree(s[s.len() - 1]))
    }
}

/// How `proc_macro2` reads the trees that some tokens hold.
pub open spec fn readings(s: Seq<Token>) -> Seq<TreeView> {
    s.map_values(|t: Token| tree_reading(t.tree()))
}

proof fn lemma_as_trees_index(s: Seq<TokenView>)
    ensures
        as_trees(s).len() == s.len(),
        forall|i: int| 0 <= i < s.len() ==> #[trigger] as_trees(s)[i] == as_tree(s[i]),
    decreases s.len(),
{
    if s.len() > 0 {
        lemma_as_trees_index(s.subrange(0, s.len() - 1));
    }
}

proof fn lemma_as_trees_single(v: TokenView)
    ensures
        as_trees(seq![v]) == seq![as_tree(v)],
{
    lemma_as_trees_index(seq![v]);
    assert(as_trees(seq![v]) =~= seq![as_tree(v)]);
}

proof fn lemma_as_trees_concat(a: Seq<TokenView>, b: Seq<TokenView>)
    ensures
        as_trees(a + b) == as_trees(a) + as_trees(b),
{
    lemma_as_trees_index(a);
    lemma_as_trees_index(b);
    lemma_as_trees_index(a + b);
    assert(as_trees(a + b) =~= as_trees(a) + as_trees(b));
}

/// Trees without invisible groups are read back as themselves.
proof fn lemma_flatten_visible(trees: Seq<TreeView>)
    requires
        !any_invisible(trees),
    ensures
        as_trees(flatten(trees)) == trees,
    decreases trees,
{
    if trees.len() > 0 {
        let front = trees.subrange(0, trees.len() - 1);
        let t = trees[trees.len() - 1];
        lemma_flatten_visible(front);
        lemma_flat_one_visible(t);
        lemma_as_trees_concat(flatten(front), flat_one(t));
        assert(front.push(t) =~= trees);
    } else {
        assert(trees =~= Seq::<TreeView>::empty());
    }
}

proof fn lemma_flat_one_visible(t: TreeView)
    requires
        !tree_invisible(t),
    ensures
        as_trees(flat_one(t)) == seq![t],
    decreases t,
{
    match t {
        TreeView::Group(Some(d), inner) => {
            lemma_flatten_visible(inner);
            let v = TokenView::Group(d, flatten(inner));
            lemma_as_trees_single(v);
        },
        _ => {
            lemma_as_trees_single(flat_one(t)[0]);
            assert(flat_one(t) =~= seq![flat_one(t)[0]]);
        },
    }
}

proof fn lemma_nesting_positive(trees: Seq<TreeView>)
    ensures
        nesting(trees) >= 1,
    decreases trees.len(),
{
    if trees.len() > 0 {
        lemma_nesting_positive(trees.subrange(0, trees.len() - 1));
    }
}

proof fn lemma_nesting_bounds(trees: Seq<TreeView>, k: int)
    requires
        0 <= k < trees.len(),
    ensures
        nesting(trees) >= tree_nesting(trees[k]),
    decreases trees.len(),
{
    if k < trees.len() - 1 {
        lemma_nesting_bounds(trees.subrange(0, trees.len() - 1), k);
    }
}

/// Clones a `proc_macro2::TokenTree` (`Clone::clone`): the copy is read as
/// the tree is.
#[verifier::external_body]
fn clone_tree(tree: &proc_macro2::TokenTree) -> (r: proc_macro2::TokenTree)
    ensures
        tree_reading(r) == tree_reading(*tree),
{
    tree.clone()
}

/// The top-level trees of a clone of `stream` (`IntoIterator::into_iter`),
/// each with its plain reading: an identifier's and a literal's `to_string`,
/// a punctuation's `as_char` and whether its `spacing` is `Joint`, a group's
/// delimiter (`None` for an invisible one) and `Group::stream`, which holds
/// the group's trees; each tree is read as the stream holds it.
#[verifier::external_body]
fn stream_pieces(stream: &proc_macro2::TokenStream) -> (r: Vec<(Piece, proc_macro2::TokenTree)>)
    ensures
        r@.len() == stream_trees_of(*stream).len(),
        forall|i: int| 0 <= i < r@.len() ==> piece_is(#[trigger] r@[i].0, stream_trees_of(*stream)[i]),
        forall|i: int| 0 <= i < r@.len() ==> tree_reading(#[trigger] r@[i].1) == stream_trees_of(*stream)[i],
{
    stream.clone().into_iter().map(|tree| (match &tree {
        proc_macro2::TokenTree::Ident(i) => Piece::Ident(i.to_string()),
        proc_macro2::TokenTree::Punct(p) => Piece::Punct(p.as_char(), p.spacing() == proc_macro2::Spacing::Joint),
        proc_macro2::TokenTree::Literal(l) => Piece::Literal(l.to_string()),
        proc_macro2::TokenTree::Group(g) => Piece::Group(match g.delimiter() {
            proc_macro2::Delimiter::Parenthesis => Some(Delim::Paren),
            proc_macro2::Delimiter::Brace => Some(Delim::Brace),
            proc_macro2::Delimiter::Bracket => Some(Delim::Bracket),
            proc_macro2::Delimiter::None => None,
        }, g.stream()),
    }, tree)).collect()
}

/// Whether a stream holds no trees at all (an empty invisible group is a
/// tree).
pub fn stream_is_empty(stream: &proc_macro2::TokenStream) -> (r: bool)
    ensures
        r == (stream_trees_of(*stream).len() == 0),
{
    let pieces = stream_pieces(stream);
    pieces.len() == 0
}

/// Builds a `proc_macro2::Group` (`Group::new`, then `set_span` with the span
/// of `original`) with the delimiter of `original` around the trees of
/// `inner`: a group of that delimiter, holding those trees.
#[verifier::external_body]
fn regroup(original: &proc_macro2::TokenTree, inner: &[Token]) -> (r: proc_macro2::TokenTree)
    ensures
        tree_reading(*original) is Group ==> tree_reading(r) == TreeView::Group(
            tree_reading(*original)->Group_0,
            readings(inner@),
        ),
{
    match original {
        proc_macro2::TokenTree::Group(g) => {
            let mut group = proc_macro2::Group::new(g.delimiter(), inner.iter().map(|t| t.raw.clone()).collect());
            group.set_span(g.span());
            proc_macro2::TokenTree::Group(group)
        },
        other => other.clone(),
    }
}

proof fn lemma_readings_push(s: Seq<Token>, t: Token)
    ensures
        readings(s.push(t)) == readings(s).push(tree_reading(t.tree())),
{
    assert(readings(s.push(t)) =~= readings(s).push(tree_reading(t.tree())));
}

/// Appends the tokens of `stream` to `out`, flattening invisible groups and
/// rebuilding every group that held one, so that the trees of the tokens
/// hold no invisible group. Returns `(ok, flattened)`: `ok` is false when
/// groups nest deeper than `depth` levels, and `flattened` tells whether an
/// invisible group stands anywhere in the stream.
fn read_into(stream: &proc_macro2::TokenStream, depth: usize, out: &mut Vec<Token>) -> (r: (bool, bool))
    ensures
        r.0 == (nesting(stream_trees_of(*stream)) <= depth),
        r.0 ==> tokens_view(final(out)@) == tokens_view(old(out)@) + flatten(stream_trees_of(*stream)),
        r.0 ==> readings(final(out)@) == readings(old(out)@) + as_trees(flatten(stream_trees_of(*stream))),
        r.0 ==> r.1 == any_invisible(stream_trees_of(*stream)),
    decreases depth,
{
    let ghost trees = stream_trees_of(*stream);
    if depth == 0 {
        proof { lemma_nesting_positive(trees); }
        return (false, false);
    }
    let pieces = stream_pieces(stream);
    let ghost start = tokens_view(out@);
    let ghost start_readings = readings(out@);
    let mut flattened = false;
    let mut i: usize = 0;
    assert(trees.subrange(0, 0) =~= Seq::<TreeView>::empty());
    assert(start + flatten(trees.subrange(0, 0)) =~= start);
    assert(as_trees(Seq::<TokenView>::empty()) =~= Seq::<TreeView>::empty());
    assert(start_readings + as_trees(flatten(trees.subrange(0, 0))) =~= start_readings);
    while i < pieces.len()
        invariant
            i <= pieces@.len(),
            depth > 0,
            trees == stream_trees_of(*stream),
            pieces@.len() == trees.len(),
            forall|j: int| 0 <= j < pieces@.len() ==> piece_is(#[trigger] pieces@[j].0, trees[j]),
            forall|j: int| 0 <= j < pieces@.len() ==> tree_reading(#[trigger] pieces@[j].1) == trees[j],
            nesting(trees.subrange(0, i as int)) <= depth,
            tokens_view(out@) == start + flatten(trees.subrange(0, i as int)),
            readings(out@) == start_readings + as_trees(flatten(trees.subrange(0, i as int))),
            flattened == any_invisible(trees.subrange(0, i as int)),
        decreases pieces@.len() - i,
    {
        let tree = &pieces[i].1;
        let ghost t = trees[i as int];
        let ghost before = tokens_view(out@);
        let ghost before_readings = readings(out@);
        let ghost prefix = trees.subrange(0, i as int);
        let ghost next = trees.subrange(0, i + 1);
        assert(next.subrange(0, i as int) =~= prefix);
        assert(next[i as int] == t);
        assert(piece_is(pieces@[i as int].0, t));
        assert(tree_reading(pieces@[i as int].1) == t);
        match &pieces[i].0 {
            Piece::Ident(s) => {
                let token = Token { kind: TokenKind::Ident(s.clone()), raw: clone_tree(tree), written: clone_tree(tree) };
                proof {
                    lemma_tokens_view_push(out@, token);
                    lemma_readings_push(out@, token);
                    assert(flat_one(t) =~= seq![token@]);
                    lemma_as_trees_single(token@);
                }
                out.push(token);
            },
            Piece::Punct(c, joint) => {
                let token = Token { kind: TokenKind::Punct(*c, *joint), raw: clone_tree(tree), written: clone_tree(tree) };
                proof {
                    lemma_tokens_view_push(out@, token);
                    lemma_readings_push(out@, token);
                    assert(flat_one(t) =~= seq![token@]);
                    lemma_as_trees_single(token@);
                }
                out.push(token);
            },
            Piece::Literal(s) => {
                let token = Token { kind: TokenKind::Literal(s.clone()), raw: clone_tree(tree), written: clone_tree(tree) };
                proof {
                    lemma_tokens_view_push(out@, token);
                    lemma_readings_push(out@, token);
                    assert(flat_one(t) =~= seq![token@]);
                    lemma_as_trees_single(token@);
                }
                out.push(token);
            },
            Piece::Group(None, inner) => {
                let (ok, _) = read_into(inner, depth - 1, out);
                if !ok {
                    proof { lemma_nesting_bounds(trees, i as int); }
                    return (false, true);
                }
                flattened = true;
            },
            Piece::Group(Some(d), inner) => {
                let mut children: Vec<Token> = Vec::new();
                let (ok, inner_flattened) = read_into(inner, depth - 1, &mut children);
                if !ok {
                    proof { lemma_nesting_bounds(trees, i as int); }
                    return (false, flattened);
                }
                let ghost inner_trees = stream_trees_of(*inner);
                proof {
                    assert(tokens_view(Seq::<Token>::empty()) =~= Seq::<TokenView>::empty());
                    assert(readings(Seq::<Token>::empty()) =~= Seq::<TreeView>::empty());
                    assert(Seq::<TokenView>::empty() + flatten(inner_trees) =~= flatten(inner_trees));
                    assert(Seq::<TreeView>::empty() + as_trees(flatten(inner_trees)) =~= as_trees(flatten(inner_trees)));
                }
                let raw = if inner_flattened {
                    regroup(tree, children.as_slice())
                } else {
                    proof { lemma_flatten_visible(inner_trees); }
                    clone_tree(tree)
                };
                if inner_flattened {
                    flattened = true;
                }
                let token = Token { kind: TokenKind::Group(*d, children), raw, written: clone_tree(tree) };
                proof {
                    lemma_tokens_view_push(out@, token);
                    lemma_readings_push(out@, token);
                    assert(flat_one(t) =~= seq![token@]);
                    lemma_as_trees_single(token@);
                }
                out.push(token);
            },
        }
        proof {
            assert(tree_nesting(t) <= depth);
            assert(nesting(next) <= depth);
            assert(flatten(next) == flatten(prefix) + flat_one(t));
            lemma_as_trees_concat(flatten(prefix), flat_one(t));
            assert(before + (flatten(prefix) + flat_one(t)) =~= before + flatten(prefix) + flat_one(t));
            assert(tokens_view(out@) =~= start + flatten(next));
            assert(readings(out@) =~= start_readings + as_trees(flatten(next)));
            assert(any_invisible(next) == (any_invisible(prefix) || tree_invisible(t)));
        }
        i += 1;
    }
    assert(trees.subrange(0, i as int) =~= trees);
    (true, flattened)
}

/// Reads a `proc_macro2` token stream as tokens. Invisible groups are
/// flattened, as `syn`'s cursor looks through them, and every group that held
/// one is rebuilt around the flattened tokens; the tree each token holds is
/// read as its model says. `None` only when groups nest more than
/// `usize::MAX` levels deep.
pub fn read_tokens(stream: proc_macro2::TokenStream) -> (r: Option<Vec<Token>>)
    ensures
        r is Some == (nesting(stream_trees_of(stream)) <= usize::MAX),
        r matches Some(v) ==> tokens_view(v@) == flatten(stream_trees_of(stream)),
        r matches Some(v) ==> readings(v@) == as_trees(tokens_view(v@)),
{
    let mut out: Vec<Token> = Vec::new();
    let (ok, _) = read_into(&stream, usize::MAX, &mut out);
    if ok {
        proof {
            assert(tokens_view(Seq::<Token>::empty()) =~= Seq::<TokenView>::empty());
            assert(readings(Seq::<Token>::empty()) =~= Seq::<TreeView>::empty());
            assert(Seq::<TokenView>::empty() + flatten(stream_trees_of(stream)) =~= flatten(stream_trees_of(stream)));
            assert(Seq::<TreeView>::empty() + as_trees(flatten(stream_trees_of(stream))) =~= as_trees(flatten(stream_trees_of(stream))));
        }
        Some(out)
    } else {
        None
    }
}

} // verus!
