//! The interface to the external radix-tree matcher.
//!
//! The matcher stores one route table per HTTP method and resolves a path to
//! a registered value plus extracted parameters. It is an external
//! collaborator: the engine consumes its lookups, it does not reimplement
//! them. Everything the engine believes about it is stated here, on a small
//! set of trusted declarations.

use vstd::prelude::*;

verus! {

#[verifier::external_type_specification]
#[verifier::external_body]
#[verifier::reject_recursive_types(T)]
pub struct ExNode<T>(matchit::Node<T>);

/// The routes registered in a matcher tree: pattern text to handler id.
pub uninterp spec fn node_routes(n: matchit::Node<u64>) -> Map<Seq<char>, u64>;

/// What `matchit::Node::at` returns for this tree and path: the matched
/// handler id with the extracted parameter pairs, or `None` for a miss.
pub uninterp spec fn lookup_of(n: matchit::Node<u64>, path: Seq<char>) -> Option<
    (u64, Seq<(Seq<char>, Seq<char>)>),
>;

/// What `matchit::MatchError::tsr` reports for a failed lookup in this tree:
/// whether a route exists at the same path with or without a trailing slash.
pub uninterp spec fn lookup_tsr_of(n: matchit::Node<u64>, path: Seq<char>) -> bool;

/// What `matchit::Node::path_ignore_case` returns for this tree and path:
/// the case-corrected (and optionally slash-corrected) registered path, when
/// one would match.
pub uninterp spec fn fixed_path_of(
    n: matchit::Node<u64>,
    path: Seq<char>,
    fix_trailing_slash: bool,
) -> Option<Seq<char>>;

/// Whether `matchit::Node::insert` accepts this route for this tree: its
/// success is a function of the tree and the route text alone.
pub uninterp spec fn insert_ok_of(n: matchit::Node<u64>, route: Seq<char>) -> bool;

/// Whether `matchit::Node::insert` accepts this route for a fresh tree:
/// every fresh tree is the same value, so acceptance is a function of the
/// route alone.
pub uninterp spec fn route_ok_of(route: Seq<char>) -> bool;

/// Whether no node of the tree holds both a literal child and a wildcard
/// (parameter or catch-all) child. The matcher's case-insensitive recovery
/// walk is total on such trees (see `node_fix_path`).
pub uninterp spec fn mix_free(n: matchit::Node<u64>) -> bool;

/// Whether inserting this route into this tree makes or meets a node that
/// holds both a literal child and a wildcard child: a function of the tree
/// value and the route text.
pub uninterp spec fn mixes_of(n: matchit::Node<u64>, route: Seq<char>) -> bool;

/// Whether two route texts part ways wildcard-against-literal: at their
/// first divergence, one side starts a parameter or catch-all and the other
/// does not. Registering such a pair is what puts a literal child and a
/// wildcard child under one node.
pub open spec fn spec_mixed_pair(a: Seq<char>, b: Seq<char>) -> bool {
    exists|i: int|
        0 <= i < a.len() && i < b.len() && a.take(i) == b.take(i) && (#[trigger] a[i]) != b[i] && (
        a[i] == ':' || a[i] == '*' || b[i] == ':' || b[i] == '*')
}

/// Whether the route parts ways wildcard-against-literal with any of the
/// given pattern texts.
pub open spec fn spec_any_mixed(ps: Seq<Seq<char>>, route: Seq<char>) -> bool {
    exists|k: int| 0 <= k < ps.len() && spec_mixed_pair(#[trigger] ps[k], route)
}

/// Why registering a route was rejected.
#[derive(Debug)]
pub enum RegisterError {
    /// The pattern does not start with `/`.
    NotRooted,
    /// The pattern claims a position an existing route already claims.
    Conflict { with: String },
    /// A segment declares more than one parameter.
    TooManyParams,
    /// A parameter has no name.
    UnnamedParam,
    /// A catch-all parameter stands before the end of the pattern.
    InvalidCatchAll,
    /// The matcher rejected the pattern as malformed.
    MalformedPath,
}

/// The result of one lookup in a matcher tree.
pub enum Lookup {
    /// A route matched: its handler id and the extracted parameters.
    Found { value: u64, params: Vec<(String, String)> },
    /// No route matched; `tsr` says whether toggling the trailing slash
    /// would have matched.
    Miss { tsr: bool },
}

/// A tree with nothing registered in it.
pub open spec fn no_routes(n: matchit::Node<u64>) -> bool {
    node_routes(n) == Map::<Seq<char>, u64>::empty()
}

/// Relies on `matchit::Node::new`: a fresh tree has no routes and no node
/// with two children at all, no insertion into it can make a mixed node (a
/// single route's spine holds one child per node), and — being always the
/// same value — it accepts exactly the routes any fresh tree accepts.
#[verifier::external_body]
pub(crate) fn node_new() -> (r: matchit::Node<u64>)
    ensures
        no_routes(r),
        mix_free(r),
        forall|route: Seq<char>| !(#[trigger] mixes_of(r, route)),
        forall|route: Seq<char>| #[trigger] insert_ok_of(r, route) == route_ok_of(route),
{
    matchit::Node::new()
}

/// Relies on `matchit::Node::insert`: its success depends on the tree and
/// the route text alone; on success the route is registered under exactly
/// that text and nothing else changes; on failure the error is reported and
/// no route is added. A successful insert adds children only along the
/// inserted route's own spine, so it leaves the tree free of mixed nodes
/// exactly when the tree was and the route does not mix with it; and a later
/// route can mix with the new tree only where it mixed with the old one or
/// parts ways wildcard-against-literal from the route just added.
#[verifier::external_body]
pub(crate) fn node_insert(n: &mut matchit::Node<u64>, route: &str, val: u64) -> (r: Result<
    (),
    RegisterError,
>)
    ensures
        (r is Ok <==> insert_ok_of(*old(n), route@)),
        r is Ok ==> node_routes(*final(n)) == node_routes(*old(n)).insert(route@, val),
        r is Err ==> node_routes(*final(n)) == node_routes(*old(n)),
        (r matches Err(e) ==> !(e is NotRooted)),
        r is Ok ==> mix_free(*final(n)) == (mix_free(*old(n)) && !mixes_of(*old(n), route@)),
        r is Ok ==> (forall|other: Seq<char>|
            #[trigger] mixes_of(*final(n), other) ==> mixes_of(*old(n), other) || spec_mixed_pair(
                route@,
                other,
            )),
{
    match n.insert(route, val) {
        Ok(()) => Ok(()),
        Err(matchit::InsertError::Conflict { with }) => Err(RegisterError::Conflict { with }),
        Err(matchit::InsertError::TooManyParams) => Err(RegisterError::TooManyParams),
        Err(matchit::InsertError::UnnamedParam) => Err(RegisterError::UnnamedParam),
        Err(matchit::InsertError::InvalidCatchAll) => Err(RegisterError::InvalidCatchAll),
        Err(_) => Err(RegisterError::MalformedPath),
    }
}

/// Relies on `matchit::Node::at` and `matchit::MatchError::tsr`: a match
/// reports the registered value with the extracted parameter pairs, a miss
/// reports whether a trailing-slash fix would have matched.
#[verifier::external_body]
pub(crate) fn node_at(n: &matchit::Node<u64>, path: &str) -> (r: Lookup)
    ensures
        (r matches Lookup::Found { value, params } ==> lookup_of(*n, path@) == Some(
            (value, params.deep_view()),
        )),
        (r matches Lookup::Miss { tsr } ==> lookup_of(*n, path@) is None && tsr == lookup_tsr_of(
            *n,
            path@,
        )),
{
    match n.at(path) {
        Ok(m) => Lookup::Found {
            value: *m.value,
            params: m.params.iter().map(|(k, v)| (k.to_owned(), v.to_owned())).collect(),
        },
        Err(e) => Lookup::Miss { tsr: e.tsr() },
    }
}

/// Relies on `matchit::Node::path_ignore_case`: the case-insensitive lookup
/// returns the corrected registered path when one would match.
///
/// The matcher's recovery walk is partial: at a node that holds both a
/// literal child and a wildcard child it fails instead of returning. On a
/// mix-free tree every step of the walk is defined, so the call is made only
/// for such trees.
#[verifier::external_body]
pub(crate) fn node_fix_path(n: &matchit::Node<u64>, path: &str, fix_trailing_slash: bool) -> (r: Option<
    String,
>)
    requires
        mix_free(*n),
    ensures
        (r matches Some(fixed) ==> fixed_path_of(*n, path@, fix_trailing_slash) == Some(fixed@)),
        (r is None ==> fixed_path_of(*n, path@, fix_trailing_slash) is None),
{
    n.path_ignore_case(path, fix_trailing_slash)
}

} // verus!
