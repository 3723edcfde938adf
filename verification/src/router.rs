//! The dispatch-resolution engine.
//!
//! A [`Router`] owns one matcher tree per HTTP method, four policy flags and
//! three optional fallback handlers. Handlers are opaque to the engine and
//! are carried as numeric ids; the host maps ids to real work. `resolve`
//! turns a method and a path into exactly one [`Outcome`].

use vstd::prelude::*;
use vstd::string::StrSliceExecFns;

use crate::matcher::Lookup;
use crate::matcher::RegisterError;
use crate::matcher::fixed_path_of;
use crate::matcher::insert_ok_of;
use crate::matcher::lookup_of;
use crate::matcher::mix_free;
use crate::matcher::mixes_of;
use crate::matcher::route_ok_of;
use crate::matcher::spec_any_mixed;
use crate::matcher::spec_mixed_pair;
use crate::matcher::lookup_tsr_of;
use crate::matcher::node_at;
use crate::matcher::node_fix_path;
use crate::matcher::node_insert;
use crate::matcher::node_new;
use crate::matcher::node_routes;
use crate::path::clean;
use crate::path::spec_clean;
use crate::path::str_chars;

verus! {

/// An HTTP request method: one of the nine standard verbs, or an extension
/// method carrying its name. A method is identified by its name on the
/// wire: `==`, and every contract, compares names.
#[derive(Debug)]
pub enum Method {
    Get,
    Head,
    Options,
    Post,
    Put,
    Patch,
    Delete,
    Connect,
    Trace,
    Extension(String),
}

/// The method's name on the wire.
pub open spec fn spec_method_name(m: Method) -> Seq<char> {
    match m {
        Method::Get => "GET"@,
        Method::Head => "HEAD"@,
        Method::Options => "OPTIONS"@,
        Method::Post => "POST"@,
        Method::Put => "PUT"@,
        Method::Patch => "PATCH"@,
        Method::Delete => "DELETE"@,
        Method::Connect => "CONNECT"@,
        Method::Trace => "TRACE"@,
        Method::Extension(s) => s@,
    }
}

/// Whether two methods are the same method: they bear the same name on the
/// wire.
pub open spec fn method_eq(a: Method, b: Method) -> bool {
    spec_method_name(a) == spec_method_name(b)
}

impl Method {
    /// Returns the method's name on the wire.
    pub fn name(&self) -> (r: String)
        ensures
            r@ == spec_method_name(*self),
    {
        match self {
            Method::Get => "GET".to_owned(),
            Method::Head => "HEAD".to_owned(),
            Method::Options => "OPTIONS".to_owned(),
            Method::Post => "POST".to_owned(),
            Method::Put => "PUT".to_owned(),
            Method::Patch => "PATCH".to_owned(),
            Method::Delete => "DELETE".to_owned(),
            Method::Connect => "CONNECT".to_owned(),
            Method::Trace => "TRACE".to_owned(),
            Method::Extension(s) => s.clone(),
        }
    }
}

impl Clone for Method {
    /// An equal method: the clone bears the same name.
    fn clone(&self) -> (r: Method)
        ensures
            r == *self,
    {
        match self {
            Method::Get => Method::Get,
            Method::Head => Method::Head,
            Method::Options => Method::Options,
            Method::Post => Method::Post,
            Method::Put => Method::Put,
            Method::Patch => Method::Patch,
            Method::Delete => Method::Delete,
            Method::Connect => Method::Connect,
            Method::Trace => Method::Trace,
            Method::Extension(s) => Method::Extension(s.clone()),
        }
    }
}

impl PartialEq for Method {
    fn eq(&self, other: &Method) -> (r: bool) {
        self.name() == other.name()
    }
}

impl vstd::std_specs::cmp::PartialEqSpecImpl for Method {
    open spec fn obeys_eq_spec() -> bool {
        true
    }

    open spec fn eq_spec(&self, other: &Method) -> bool {
        method_eq(*self, *other)
    }
}

/// The parameters a successful match extracted, in pattern-declaration
/// order. Keys need not be unique; lookups return the first hit.
pub struct Params {
    pub vec: Vec<(String, String)>,
}

impl View for Params {
    type V = Seq<(Seq<char>, Seq<char>)>;

    open spec fn view(&self) -> Seq<(Seq<char>, Seq<char>)> {
        self.vec.deep_view()
    }
}

/// The value under the first pair whose key is `key`.
pub open spec fn spec_get_param(ps: Seq<(Seq<char>, Seq<char>)>, key: Seq<char>) -> Option<
    Seq<char>,
>
    decreases ps.len(),
{
    if ps.len() == 0 {
        None
    } else if ps[0].0 == key {
        Some(ps[0].1)
    } else {
        spec_get_param(ps.drop_first(), key)
    }
}

impl Params {
    /// Wraps extracted pairs.
    pub fn from_pairs(vec: Vec<(String, String)>) -> (r: Params)
        ensures
            r@ == vec.deep_view(),
    {
        Params { vec }
    }

    /// Returns the value of the first parameter registered for the given key.
    pub fn get(&self, key: &str) -> (r: Option<&str>)
        ensures
            (r matches Some(v) ==> spec_get_param(self@, key@) == Some(v@)),
            (r is None ==> spec_get_param(self@, key@) is None),
    {
        let owned_key = key.to_owned();
        let n = self.vec.len();
        let mut i: usize = 0;
        proof {
            assert(self@.skip(0) == self@);
        }
        while i < n
            invariant
                n == self.vec.len(),
                i <= n,
                owned_key@ == key@,
                spec_get_param(self@, key@) == spec_get_param(self@.skip(i as int), key@),
            decreases n - i,
        {
            proof {
                assert(self@.skip(i as int).len() > 0);
                assert(self@.skip(i as int)[0] == self@[i as int]);
                assert(self@.skip(i as int).drop_first() =~= self@.skip(i as int + 1));
                assert(self@[i as int] == (self.vec@[i as int].0@, self.vec@[i as int].1@));
            }
            if self.vec[i].0 == owned_key {
                return Some(self.vec[i].1.as_str());
            }
            i += 1;
        }
        proof {
            assert(self@.skip(n as int) =~= Seq::<(Seq<char>, Seq<char>)>::empty());
        }
        None
    }

    /// Returns an iterator over the parameters in the list.
    pub fn iter(&self) -> (r: std::slice::Iter<'_, (String, String)>)
        ensures
            vstd::std_specs::iter::IteratorSpec::remaining(&r) == self.vec@.as_ref(),
    {
        broadcast use vstd::std_specs::slice::axiom_spec_slice_iter;

        self.vec.as_slice().iter()
    }

    /// Returns a mutable iterator over the parameters in the list.
    ///
    /// Relies on `<[T]>::iter_mut` of std; nothing is stated of it, and the
    /// parameters may be arbitrary afterwards.
    #[verifier::external_body]
    pub fn iter_mut<'a>(&'a mut self) -> std::slice::IterMut<'a, (String, String)> {
        self.vec.iter_mut()
    }

    /// Returns an owned iterator over the parameters in the list.
    pub fn into_iter(self) -> (r: std::vec::IntoIter<(String, String)>)
        ensures
            vstd::std_specs::iter::IteratorSpec::remaining(&r) == self.vec@,
    {
        broadcast use vstd::std_specs::vec::axiom_spec_into_iter;

        self.vec.into_iter()
    }
}

impl Default for Params {
    /// An empty parameter list.
    fn default() -> (r: Params)
        ensures
            r@.len() == 0,
    {
        Params { vec: Vec::new() }
    }
}

#[verifier::external_type_specification]
#[verifier::external_body]
#[verifier::reject_recursive_types(T)]
pub struct ExIterMut<'a, T: 'a>(std::slice::IterMut<'a, T>);

/// The decision the engine reaches for one request. Exactly one variant is
/// produced per call of `resolve`.
pub enum Outcome {
    /// A route matched: run this handler with these parameters. Also the
    /// shape of a delegation to a configured fallback handler, which gets no
    /// parameters.
    Invoke { handler: u64, params: Params },
    /// Answer with a redirect to `location` under `status`.
    Redirect { location: String, status: u16 },
    /// Synthesize the reply to an OPTIONS request: the allowed methods.
    AutoOptions { allow: Vec<String> },
    /// Synthesize a 405 reply listing the allowed methods.
    MethodNotAllowed { allow: Vec<String> },
    /// Nothing matched and no fallback handler is configured.
    NotFound,
}

/// The mathematical shape of an `Outcome`.
pub enum OutcomeView {
    Invoke { handler: u64, params: Seq<(Seq<char>, Seq<char>)> },
    Redirect { location: Seq<char>, status: u16 },
    AutoOptions { allow: Seq<Seq<char>> },
    MethodNotAllowed { allow: Seq<Seq<char>> },
    NotFound,
}

impl View for Outcome {
    type V = OutcomeView;

    open spec fn view(&self) -> OutcomeView {
        match self {
            Outcome::Invoke { handler, params } => OutcomeView::Invoke {
                handler: *handler,
                params: params@,
            },
            Outcome::Redirect { location, status } => OutcomeView::Redirect {
                location: location@,
                status: *status,
            },
            Outcome::AutoOptions { allow } => OutcomeView::AutoOptions { allow: allow.deep_view() },
            Outcome::MethodNotAllowed { allow } => OutcomeView::MethodNotAllowed {
                allow: allow.deep_view(),
            },
            Outcome::NotFound => OutcomeView::NotFound,
        }
    }
}

/// One method's routing table: its matcher tree, the pattern texts
/// registered in it, and whether two of them ever parted ways
/// wildcard-against-literal — when they did, the tree holds a node with a
/// literal child beside a wildcard child, and the matcher's case-insensitive
/// recovery is no longer consulted for it.
pub struct MethodTable {
    /// The method the table serves.
    pub method: Method,
    /// The matcher tree holding the method's routes.
    pub node: matchit::Node<u64>,
    /// The pattern texts registered in the tree, in registration order.
    pub patterns: Vec<String>,
    /// Whether a registered pattern parts ways wildcard-against-literal
    /// with an earlier one.
    pub mixed: bool,
}

/// The dispatch engine: one matcher tree per registered method, the policy
/// flags, and the optional fallback handlers. Built once, then read-only
/// while serving.
pub struct Router {
    /// The per-method route tables, in the order the methods were first
    /// registered.
    pub trees: Vec<MethodTable>,
    /// Answer a trailing-slash-only mismatch with a redirect.
    pub redirect_trailing_slash: bool,
    /// Clean the path, look it up case-insensitively, and redirect to the
    /// corrected path when that matches.
    pub redirect_fixed_path: bool,
    /// Answer with a 405 when another method matches the path.
    pub handle_method_not_allowed: bool,
    /// Answer OPTIONS requests automatically.
    pub handle_options: bool,
    /// Called for automatic OPTIONS replies when configured.
    pub global_options: Option<u64>,
    /// Called when no route matches, when configured.
    pub not_found: Option<u64>,
    /// Called instead of the synthesized 405, when configured.
    pub method_not_allowed: Option<u64>,
}

/// The first table entry registered for the method, if any: the method, its
/// tree, and whether any of the tree's registered patterns declares a
/// parameter or catch-all.
pub open spec fn spec_find_tree(
    trees: Seq<MethodTable>,
    m: Method,
) -> Option<MethodTable>
    decreases trees.len(),
{
    if trees.len() == 0 {
        None
    } else if method_eq(trees[0].method, m) {
        Some(trees[0])
    } else {
        spec_find_tree(trees.drop_first(), m)
    }
}

/// The names of the methods other than OPTIONS whose tree matches the path,
/// in tree order.
pub open spec fn spec_allowed_list(
    trees: Seq<MethodTable>,
    path: Seq<char>,
) -> Seq<Seq<char>>
    decreases trees.len(),
{
    if trees.len() == 0 {
        Seq::<Seq<char>>::empty()
    } else {
        let prev = spec_allowed_list(trees.drop_last(), path);
        if !method_eq(trees.last().method, Method::Options) && lookup_of(
            trees.last().node,
            path,
        ) is Some {
            prev.push(spec_method_name(trees.last().method))
        } else {
            prev
        }
    }
}

/// The names of all methods other than OPTIONS that have a tree at all, in
/// tree order: what `allowed` reports for the server-wide path `*`.
pub open spec fn spec_any_list(trees: Seq<MethodTable>) -> Seq<Seq<char>>
    decreases trees.len(),
{
    if trees.len() == 0 {
        Seq::<Seq<char>>::empty()
    } else {
        let prev = spec_any_list(trees.drop_last());
        if !method_eq(trees.last().method, Method::Options) {
            prev.push(spec_method_name(trees.last().method))
        } else {
            prev
        }
    }
}

/// `OPTIONS` appended whenever anything else is allowed.
pub open spec fn spec_with_options(names: Seq<Seq<char>>) -> Seq<Seq<char>> {
    if names.len() == 0 {
        names
    } else {
        names.push("OPTIONS"@)
    }
}

/// What `allowed` reports for a path: the matching methods and, when any
/// match, OPTIONS; for the server-wide path `*`, every registered method.
pub open spec fn spec_allowed(r: Router, path: Seq<char>) -> Seq<Seq<char>> {
    if path == "*"@ {
        spec_with_options(spec_any_list(r.trees@))
    } else {
        spec_with_options(spec_allowed_list(r.trees@, path))
    }
}

/// The status of every redirect: 301 for GET, 308 for every other method.
pub open spec fn spec_status(m: Method) -> u16 {
    if method_eq(m, Method::Get) {
        301u16
    } else {
        308u16
    }
}

/// The path with its trailing slash toggled: stripped when present (and the
/// path is more than the root), appended when absent.
pub open spec fn spec_toggled(path: Seq<char>) -> Seq<char> {
    if path.len() > 1 && path.last() == '/' {
        path.drop_last()
    } else {
        path + seq!['/']
    }
}

/// The outcome when no route matched and no redirect applies: for an
/// OPTIONS request under the OPTIONS policy, an automatic reply when any
/// other method matches, else the not-found fallback; for everything else,
/// the same decision a method without a tree gets.
pub open spec fn spec_fallback(r: Router, m: Method, path: Seq<char>) -> OutcomeView {
    let allow = spec_allowed(r, path);
    if method_eq(m, Method::Options) && r.handle_options {
        if allow.len() > 0 {
            match r.global_options {
                Some(h) => OutcomeView::Invoke { handler: h, params: Seq::empty() },
                None => OutcomeView::AutoOptions { allow },
            }
        } else {
            spec_not_found(r)
        }
    } else {
        spec_resolve_unknown_method(r, path)
    }
}

/// The outcome for a request whose method carries no route tree: a 405 when
/// another method matches the path and the policy is on, else the not-found
/// fallback.
pub open spec fn spec_resolve_unknown_method(r: Router, path: Seq<char>) -> OutcomeView {
    let allow = spec_allowed(r, path);
    if r.handle_method_not_allowed && allow.len() > 0 {
        match r.method_not_allowed {
            Some(h) => OutcomeView::Invoke { handler: h, params: Seq::empty() },
            None => OutcomeView::MethodNotAllowed { allow },
        }
    } else {
        spec_not_found(r)
    }
}

/// The final fallback: the configured not-found handler, or `NotFound`.
pub open spec fn spec_not_found(r: Router) -> OutcomeView {
    match r.not_found {
        Some(h) => OutcomeView::Invoke { handler: h, params: Seq::empty() },
        None => OutcomeView::NotFound,
    }
}

impl Router {
    /// The index of the method's tree, if one exists.
    fn find_tree(&self, m: &Method) -> (r: Option<usize>)
        ensures
            (r matches Some(i) ==> i < self.trees.len() && method_eq(
                self.trees@[i as int].method,
                *m,
            ) && spec_find_tree(self.trees@, *m) == Some(self.trees@[i as int]) && (forall|j: int|
                0 <= j < i ==> !method_eq((#[trigger] self.trees@[j]).method, *m))),
            (r is None ==> spec_find_tree(self.trees@, *m) is None && (forall|j: int|
                0 <= j < self.trees@.len() ==> !method_eq(
                    (#[trigger] self.trees@[j]).method,
                    *m,
                ))),
    {
        let n = self.trees.len();
        let mut i: usize = 0;
        proof {
            assert(self.trees@.skip(0) == self.trees@);
        }
        while i < n
            invariant
                n == self.trees.len(),
                i <= n,
                spec_find_tree(self.trees@, *m) == spec_find_tree(self.trees@.skip(i as int), *m),
                forall|j: int| 0 <= j < i ==> !method_eq((#[trigger] self.trees@[j]).method, *m),
            decreases n - i,
        {
            proof {
                assert(self.trees@.skip(i as int)[0] == self.trees@[i as int]);
                assert(self.trees@.skip(i as int).drop_first() =~= self.trees@.skip(i as int + 1));
            }
            if self.trees[i].method == *m {
                return Some(i);
            }
            i += 1;
        }
        proof {
            assert(self.trees@.skip(n as int).len() == 0);
        }
        None
    }

    /// Returns the methods allowed for the given path: every method other
    /// than OPTIONS whose tree matches it, in tree order, then OPTIONS when
    /// any did; for the server-wide path `*`, every registered method.
    pub fn allowed(&self, path: &str) -> (r: Vec<String>)
        ensures
            r.deep_view() == spec_allowed(*self, path@),
    {
        let star = path.unicode_len() == 1 && path.get_char(0) == '*';
        proof {
            reveal_strlit("*");
            if path@.len() == 1 && path@[0] == '*' {
                assert(path@ =~= "*"@);
            }
            assert(star == (path@ == "*"@));
        }
        let mut names: Vec<String> = Vec::new();
        let n = self.trees.len();
        if star {
            for k in 0..n
                invariant
                    n == self.trees.len(),
                    names.deep_view() == spec_any_list(self.trees@.take(k as int)),
            {
                let ghost prev = names.deep_view();
                proof {
                    assert(self.trees@.take(k as int + 1).drop_last() =~= self.trees@.take(
                        k as int,
                    ));
                    assert(self.trees@.take(k as int + 1).last() == self.trees@[k as int]);
                }
                if self.trees[k].method != Method::Options {
                    names.push(self.trees[k].method.name());
                    proof {
                        assert(names.deep_view() =~~= prev.push(
                            spec_method_name(self.trees@[k as int].method),
                        ));
                    }
                }
            }
        } else {
            for k in 0..n
                invariant
                    n == self.trees.len(),
                    path@ != "*"@,
                    names.deep_view() == spec_allowed_list(self.trees@.take(k as int), path@),
            {
                let ghost prev = names.deep_view();
                proof {
                    assert(self.trees@.take(k as int + 1).drop_last() =~= self.trees@.take(
                        k as int,
                    ));
                    assert(self.trees@.take(k as int + 1).last() == self.trees@[k as int]);
                }
                if self.trees[k].method != Method::Options {
                    match node_at(&self.trees[k].node, path) {
                        Lookup::Found { value: _, params: _ } => {
                            names.push(self.trees[k].method.name());
                            proof {
                                assert(names.deep_view() =~~= prev.push(
                                    spec_method_name(self.trees@[k as int].method),
                                ));
                            }
                        },
                        Lookup::Miss { tsr: _ } => {},
                    }
                }
            }
        }
        proof {
            assert(self.trees@.take(n as int) =~= self.trees@);
        }
        if names.len() > 0 {
            let ghost prev = names.deep_view();
            names.push("OPTIONS".to_owned());
            proof {
                assert(names.deep_view() =~~= prev.push("OPTIONS"@));
            }
        }
        names
    }
}

/// The decision for one request, in order: an exact match dispatches; a
/// trailing-slash or fixed-path redirect is attempted unless the method is
/// CONNECT or the path is the root; then the method fallbacks run.
///
/// Fixed-path recovery is consulted only while the tree's `mixed` mark is
/// clear — no two of its patterns part ways wildcard-against-literal — since
/// the matcher's case-insensitive walk fails at a node holding both a
/// literal child and a wildcard child; a mixed tree reports no fixed path.
pub open spec fn spec_resolve(r: Router, m: Method, path: Seq<char>) -> OutcomeView {
    match spec_find_tree(r.trees@, m) {
        Some(entry) => {
            if lookup_of(entry.node, path) is Some {
                let (h, ps) = lookup_of(entry.node, path)->0;
                OutcomeView::Invoke { handler: h, params: ps }
            } else if !method_eq(m, Method::Connect) && path != seq!['/'] && r.redirect_trailing_slash
                && lookup_tsr_of(entry.node, path) {
                OutcomeView::Redirect { location: spec_toggled(path), status: spec_status(m) }
            } else if !method_eq(m, Method::Connect) && path != seq!['/'] && r.redirect_fixed_path
                && !entry.mixed
                && fixed_path_of(entry.node, spec_clean(path), r.redirect_trailing_slash) is Some {
                OutcomeView::Redirect {
                    location: fixed_path_of(
                        entry.node,
                        spec_clean(path),
                        r.redirect_trailing_slash,
                    )->0,
                    status: spec_status(m),
                }
            } else {
                spec_fallback(r, m, path)
            }
        },
        None => spec_fallback(r, m, path),
    }
}

/// Whether two pattern texts part ways wildcard-against-literal.
fn is_mixed_pair(a: &str, b: &str) -> (r: bool)
    ensures
        r == spec_mixed_pair(a@, b@),
{
    let av = str_chars(a);
    let bv = str_chars(b);
    let alen = av.len();
    let blen = bv.len();
    let shorter = if alen < blen {
        alen
    } else {
        blen
    };
    let mut i: usize = 0;
    while i < shorter && av[i] == bv[i]
        invariant
            av@ == a@,
            bv@ == b@,
            alen == av.len(),
            blen == bv.len(),
            shorter <= alen && shorter <= blen && (shorter == alen || shorter == blen),
            i <= shorter,
            forall|j: int| 0 <= j < i ==> a@[j] == b@[j],
        decreases shorter - i,
    {
        i += 1;
    }
    let r = i < alen && i < blen && (av[i] == ':' || av[i] == '*' || bv[i] == ':' || bv[i] == '*');
    proof {
        if r {
            assert(a@[i as int] != b@[i as int]);
            assert(a@.take(i as int) =~= b@.take(i as int));
        } else {
            if spec_mixed_pair(a@, b@) {
                let k = choose|k: int|
                    0 <= k < a@.len() && k < b@.len() && a@.take(k) == b@.take(k) && a@[k] != b@[k]
                        && (a@[k] == ':' || a@[k] == '*' || b@[k] == ':' || b@[k] == '*');
                assert forall|j: int| 0 <= j < k implies a@[j] == b@[j] by {
                    assert(a@.take(k)[j] == a@[j]);
                    assert(b@.take(k)[j] == b@[j]);
                }
                if k < i {
                    assert(a@[k] == b@[k]);
                } else if k > i {
                    assert(i < shorter);
                    assert(a@[i as int] == b@[i as int]);
                } else {
                    assert(i < alen && i < blen);
                }
                assert(false);
            }
        }
    }
    r
}

/// Whether the route parts ways wildcard-against-literal with any of the
/// registered pattern texts.
fn patterns_clash(ps: &Vec<String>, route: &str) -> (r: bool)
    ensures
        r == spec_any_mixed(ps.deep_view(), route@),
{
    let n = ps.len();
    let mut k: usize = 0;
    while k < n
        invariant
            n == ps.len(),
            k <= n,
            forall|j: int| 0 <= j < k ==> !spec_mixed_pair(#[trigger] ps.deep_view()[j], route@),
        decreases n - k,
    {
        if is_mixed_pair(ps[k].as_str(), route) {
            proof {
                assert(ps.deep_view()[k as int] == ps@[k as int]@);
                assert(spec_any_mixed(ps.deep_view(), route@));
            }
            return true;
        }
        proof {
            assert(ps.deep_view()[k as int] == ps@[k as int]@);
        }
        k += 1;
    }
    proof {
        if spec_any_mixed(ps.deep_view(), route@) {
            let j = choose|j: int|
                0 <= j < ps.deep_view().len() && spec_mixed_pair(
                    #[trigger] ps.deep_view()[j],
                    route@,
                );
        }
    }
    false
}

/// A table stays well-formed through a successful registration: the new
/// mark and pattern list keep covering every way a route can mix with the
/// grown tree.
proof fn lemma_table_wf_after_insert(old_entry: MethodTable, new_entry: MethodTable, path: Seq<char>)
    requires
        old_entry.wf(),
        mix_free(new_entry.node) == (mix_free(old_entry.node) && !mixes_of(old_entry.node, path)),
        forall|other: Seq<char>|
            #[trigger] mixes_of(new_entry.node, other) ==> mixes_of(old_entry.node, other)
                || spec_mixed_pair(path, other),
        new_entry.mixed == (old_entry.mixed || spec_any_mixed(old_entry.patterns.deep_view(), path)),
        new_entry.patterns.deep_view() == old_entry.patterns.deep_view().push(path),
    ensures
        new_entry.wf(),
{
    let old_ps = old_entry.patterns.deep_view();
    let new_ps = new_entry.patterns.deep_view();
    if !new_entry.mixed {
        assert(!mixes_of(old_entry.node, path));
        assert(mix_free(new_entry.node));
    }
    assert forall|other: Seq<char>| #[trigger] mixes_of(new_entry.node, other) implies
    spec_any_mixed(new_ps, other) by {
        if mixes_of(old_entry.node, other) {
            let k = choose|k: int|
                0 <= k < old_ps.len() && spec_mixed_pair(#[trigger] old_ps[k], other);
            assert(new_ps[k] == old_ps[k]);
            assert(spec_any_mixed(new_ps, other));
        } else {
            assert(spec_mixed_pair(path, other));
            assert(new_ps[old_ps.len() as int] == path);
            assert(spec_any_mixed(new_ps, other));
        }
    }
}

/// Toggles the trailing slash of a path: strips one when present (and the
/// path is more than the root), appends one when absent.
fn toggled_path(path: &str) -> (r: String)
    ensures
        r@ == spec_toggled(path@),
{
    let n = path.unicode_len();
    if n > 1 && path.get_char(n - 1) == '/' {
        let s = path.substring_char(0, n - 1).to_owned();
        proof {
            assert(path@.subrange(0, path@.len() - 1) =~= path@.drop_last());
        }
        s
    } else {
        let mut s = path.to_owned();
        s.append("/");
        proof {
            reveal_strlit("/");
            assert("/"@ =~= seq!['/']);
        }
        s
    }
}

impl Router {
    /// Resolves one request to its outcome, never failing: an exact match
    /// dispatches to its handler; otherwise, unless the method is CONNECT or
    /// the path is the root, a trailing-slash redirect and then a fixed-path
    /// redirect are attempted under their policies; otherwise an OPTIONS or
    /// 405 answer is synthesized when another method matches the path;
    /// otherwise the not-found fallback answers.
    ///
    /// Fixed-path recovery is consulted only while the tree's `mixed` mark
    /// is clear — no two of its patterns part ways wildcard-against-literal,
    /// the matcher's own registration invariant — since the matcher's
    /// case-insensitive walk fails at a node holding both a literal child
    /// and a wildcard child; a mixed tree reports no fixed path.
    pub fn resolve(&self, method: Method, path: &str) -> (r: Outcome)
        requires
            self.wf(),
        ensures
            r@ == spec_resolve(*self, method, path@),
    {
        if let Some(i) = self.find_tree(&method) {
            let tree = &self.trees[i].node;
            match node_at(tree, path) {
                Lookup::Found { value, params } => {
                    return Outcome::Invoke { handler: value, params: Params::from_pairs(params) };
                },
                Lookup::Miss { tsr } => {
                    let root = path.unicode_len() == 1 && path.get_char(0) == '/';
                    proof {
                        if path@.len() == 1 && path@[0] == '/' {
                            assert(path@ =~= seq!['/']);
                        }
                    }
                    if method != Method::Connect && !root {
                        let status: u16 = if method == Method::Get {
                            301
                        } else {
                            308
                        };
                        if tsr && self.redirect_trailing_slash {
                            return Outcome::Redirect { location: toggled_path(path), status };
                        }
                        if self.redirect_fixed_path && !self.trees[i].mixed {
                            let cleaned = clean(path);
                            proof {
                                assert(mix_free(self.trees@[i as int].node));
                            }
                            let fix = node_fix_path(
                                tree,
                                cleaned.as_str(),
                                self.redirect_trailing_slash,
                            );
                            if let Some(fixed) = fix {
                                return Outcome::Redirect { location: fixed, status };
                            }
                        }
                    }
                },
            }
        }
        self.fallback(method, path)
    }

    /// The decision when no route matched and no redirect applies: an
    /// automatic OPTIONS answer, a 405, or the not-found fallback.
    fn fallback(&self, method: Method, path: &str) -> (r: Outcome)
        ensures
            r@ == spec_fallback(*self, method, path@),
    {
        if method == Method::Options && self.handle_options {
            let allow = self.allowed(path);
            if allow.len() > 0 {
                match self.global_options {
                    Some(h) => {
                        return Outcome::Invoke { handler: h, params: empty_params() };
                    },
                    None => {
                        return Outcome::AutoOptions { allow };
                    },
                }
            }
            self.not_found_outcome()
        } else {
            self.resolve_unknown_method(path)
        }
    }

    /// The decision for a request considered apart from its method: only
    /// the 405 and not-found fallbacks apply — exactly what any non-OPTIONS
    /// request whose method has no tree receives.
    pub fn resolve_unknown_method(&self, path: &str) -> (r: Outcome)
        ensures
            r@ == spec_resolve_unknown_method(*self, path@),
    {
        if self.handle_method_not_allowed {
            let allow = self.allowed(path);
            if allow.len() > 0 {
                match self.method_not_allowed {
                    Some(h) => {
                        return Outcome::Invoke { handler: h, params: empty_params() };
                    },
                    None => {
                        return Outcome::MethodNotAllowed { allow };
                    },
                }
            }
        }
        self.not_found_outcome()
    }

    /// The final fallback: the configured not-found handler, or `NotFound`.
    fn not_found_outcome(&self) -> (r: Outcome)
        ensures
            r@ == spec_not_found(*self),
    {
        match self.not_found {
            Some(h) => Outcome::Invoke { handler: h, params: empty_params() },
            None => Outcome::NotFound,
        }
    }
}

/// The routes the router holds for a method: what the method's tree has
/// registered, or nothing when no tree exists.
pub open spec fn spec_routes(r: Router, m: Method) -> Map<Seq<char>, u64> {
    match spec_find_tree(r.trees@, m) {
        Some(e) => node_routes(e.node),
        None => Map::empty(),
    }
}

/// Whether the matcher accepts this registration: decided by the method's
/// tree and the pattern text alone (by the pattern alone when the method has
/// no tree yet).
pub open spec fn spec_register_ok(prev: Router, method: Method, path: Seq<char>) -> bool {
    match spec_find_tree(prev.trees@, method) {
        Some(e) => insert_ok_of(e.node, path),
        None => route_ok_of(path),
    }
}

impl MethodTable {
    /// The table's well-formedness: a clear `mixed` mark means the tree is
    /// mix-free, and a route can mix with the tree only by parting ways
    /// wildcard-against-literal with one of the registered patterns.
    pub open spec fn wf(&self) -> bool {
        &&& (!self.mixed ==> mix_free(self.node))
        &&& (forall|other: Seq<char>|
            #[trigger] mixes_of(self.node, other) ==> spec_any_mixed(
                self.patterns.deep_view(),
                other,
            ))
    }
}

impl Router {
    /// The router's well-formedness: every method table is well-formed, and
    /// no two tables share a method. Constructors establish it and every
    /// method keeps it.
    pub open spec fn wf(&self) -> bool {
        &&& (forall|i: int| 0 <= i < self.trees@.len() ==> (#[trigger] self.trees@[i]).wf())
        &&& (forall|i: int, j: int|
            0 <= i < j < self.trees@.len() ==> !method_eq(
                (#[trigger] self.trees@[i]).method,
                (#[trigger] self.trees@[j]).method,
            ))
    }
}

/// Everything registration promises: registration succeeds exactly when the
/// pattern is rooted and the matcher accepts it; an `Ok` router carries the
/// route added to the method's table — the pattern appended to the table's
/// texts and the `mixed` mark raised when the pattern parts ways
/// wildcard-against-literal with one already registered — and every other
/// tree, the policies and the fallback handlers unchanged, and stays
/// well-formed; `NotRooted` is reported exactly for a pattern that does not
/// start with `/`.
pub open spec fn spec_handle_post(
    prev: Router,
    path: Seq<char>,
    method: Method,
    handler: u64,
    r: Result<Router, RegisterError>,
) -> bool {
    &&& ((path.len() == 0 || path[0] != '/') <==> r matches Err(RegisterError::NotRooted))
    &&& (path.len() > 0 && path[0] == '/' ==> (r is Ok <==> spec_register_ok(
        prev,
        method,
        path,
    )))
    &&& (r matches Ok(next) ==> {
        &&& spec_routes(next, method) == spec_routes(prev, method).insert(path, handler)
        &&& (match spec_find_tree(next.trees@, method) {
            Some(e) => match spec_find_tree(prev.trees@, method) {
                Some(pe) => e.mixed == (pe.mixed || spec_any_mixed(pe.patterns.deep_view(), path))
                    && e.patterns.deep_view() == pe.patterns.deep_view().push(path),
                None => e.mixed == false && e.patterns.deep_view() == seq![path],
            },
            None => false,
        })
        &&& (forall|m2: Method|
            !method_eq(m2, method) ==> spec_find_tree(next.trees@, m2) == spec_find_tree(
                prev.trees@,
                m2,
            ))
        &&& (prev.wf() ==> next.wf())
        &&& next.redirect_trailing_slash == prev.redirect_trailing_slash
        &&& next.redirect_fixed_path == prev.redirect_fixed_path
        &&& next.handle_method_not_allowed == prev.handle_method_not_allowed
        &&& next.handle_options == prev.handle_options
        &&& next.global_options == prev.global_options
        &&& next.not_found == prev.not_found
        &&& next.method_not_allowed == prev.method_not_allowed
    })
}

/// Replacing the tree of the first entry for a method changes that method's
/// lookup alone.
proof fn lemma_find_tree_update(
    t: Seq<MethodTable>,
    i: int,
    e2: MethodTable,
)
    requires
        0 <= i < t.len(),
        method_eq(e2.method, t[i].method),
        forall|j: int| 0 <= j < i ==> !method_eq((#[trigger] t[j]).method, t[i].method),
    ensures
        spec_find_tree(t.update(i, e2), t[i].method) == Some(e2),
        forall|m2: Method|
            !method_eq(m2, t[i].method) ==> spec_find_tree(t.update(i, e2), m2) == spec_find_tree(
                t,
                m2,
            ),
    decreases t.len(),
{
    let t2 = t.update(i, e2);
    if i == 0 {
        assert(t2[0] == e2);
        assert(t2.drop_first() =~= t.drop_first());
        assert forall|m2: Method| !method_eq(m2, t[i].method) implies spec_find_tree(t2, m2)
            == spec_find_tree(
            t,
            m2,
        ) by {
            assert(spec_find_tree(t2, m2) == spec_find_tree(t2.drop_first(), m2));
            assert(spec_find_tree(t, m2) == spec_find_tree(t.drop_first(), m2));
        }
    } else {
        assert(t2[0] == t[0]);
        assert(!method_eq(t[0].method, t[i].method));
        assert(t2.drop_first() =~= t.drop_first().update(i - 1, e2));
        assert(t.drop_first()[i - 1] == t[i]);
        assert(forall|j: int|
            0 <= j < i - 1 ==> !method_eq(
                (#[trigger] t.drop_first()[j]).method,
                t.drop_first()[i - 1].method,
            ));
        lemma_find_tree_update(t.drop_first(), i - 1, e2);
        assert(spec_find_tree(t2, t[i].method) == Some(e2));
        assert forall|m2: Method| !method_eq(m2, t[i].method) implies spec_find_tree(t2, m2)
            == spec_find_tree(
            t,
            m2,
        ) by {
            if !method_eq(t[0].method, m2) {
                assert(spec_find_tree(t2, m2) == spec_find_tree(t2.drop_first(), m2));
                assert(spec_find_tree(t, m2) == spec_find_tree(t.drop_first(), m2));
            }
        }
    }
}

/// Adding a tree for a method not seen before changes that method's lookup
/// alone.
proof fn lemma_find_tree_push(
    t: Seq<MethodTable>,
    e: MethodTable,
)
    requires
        spec_find_tree(t, e.method) is None,
    ensures
        spec_find_tree(t.push(e), e.method) == Some(e),
        forall|m2: Method| !method_eq(m2, e.method) ==> spec_find_tree(t.push(e), m2)
            == spec_find_tree(
            t,
            m2,
        ),
    decreases t.len(),
{
    let m = e.method;
    let t2 = t.push(e);
    if t.len() == 0 {
        assert(t2[0] == e);
        assert(t2.drop_first() =~= Seq::<MethodTable>::empty());
        assert forall|m2: Method| !method_eq(m2, m) implies spec_find_tree(t2, m2) == spec_find_tree(
            t,
            m2,
        ) by {
            assert(spec_find_tree(t2, m2) == spec_find_tree(t2.drop_first(), m2));
        }
    } else {
        assert(t2[0] == t[0]);
        assert(!method_eq(t[0].method, m));
        assert(t2.drop_first() =~= t.drop_first().push(e));
        lemma_find_tree_push(t.drop_first(), e);
        assert(spec_find_tree(t2, m) == Some(e));
        assert forall|m2: Method| !method_eq(m2, m) implies spec_find_tree(t2, m2) == spec_find_tree(
            t,
            m2,
        ) by {
            if !method_eq(t[0].method, m2) {
                assert(spec_find_tree(t2, m2) == spec_find_tree(t2.drop_first(), m2));
                assert(spec_find_tree(t, m2) == spec_find_tree(t.drop_first(), m2));
            }
        }
    }
}

/// Finding a tree depends on the method's name alone.
proof fn lemma_find_tree_eq_arg(t: Seq<MethodTable>, m1: Method, m2: Method)
    requires
        method_eq(m1, m2),
    ensures
        spec_find_tree(t, m1) == spec_find_tree(t, m2),
    decreases t.len(),
{
    if t.len() > 0 {
        lemma_find_tree_eq_arg(t.drop_first(), m1, m2);
    }
}

impl Router {
    /// Registers a handler for the given pattern and method. A pattern that
    /// does not start with `/`, and a pattern the matcher rejects, fail the
    /// registration.
    pub fn handle(self, path: &str, method: Method, handler: u64) -> (r: Result<
        Router,
        RegisterError,
    >)
        ensures
            spec_handle_post(self, path@, method, handler, r),
    {
        if path.unicode_len() == 0 || path.get_char(0) != '/' {
            return Err(RegisterError::NotRooted);
        }
        let mut this = self;
        let found = this.find_tree(&method);
        if let Some(i) = found {
            let ghost old_trees = this.trees@;
            let mut entry = this.trees.remove(i);
            let ghost old_entry = entry;
            let clash = patterns_clash(&entry.patterns, path);
            let res = node_insert(&mut entry.node, path, handler);
            if res.is_ok() {
                entry.mixed = entry.mixed || clash;
                let ghost old_patterns = entry.patterns.deep_view();
                entry.patterns.push(path.to_owned());
                proof {
                    assert(entry.patterns.deep_view() =~~= old_patterns.push(path@));
                }
            }
            let ghost new_entry = entry;
            this.trees.insert(i, entry);
            proof {
                assert(this.trees@ =~= old_trees.update(i as int, new_entry));
                lemma_find_tree_update(old_trees, i as int, new_entry);
                lemma_find_tree_eq_arg(old_trees, method, old_trees[i as int].method);
                lemma_find_tree_eq_arg(this.trees@, method, old_trees[i as int].method);
                if res is Ok && self.wf() {
                    assert(old_entry.wf());
                    lemma_table_wf_after_insert(old_entry, new_entry, path@);
                    assert forall|j: int|
                        0 <= j < this.trees@.len() implies (#[trigger] this.trees@[j]).wf() by {
                        if j != i {
                            assert(this.trees@[j] == old_trees[j]);
                        }
                    }
                }
            }
            match res {
                Ok(()) => Ok(this),
                Err(e) => Err(e),
            }
        } else {
            let mut node = node_new();
            let ghost fresh = node;
            let res = node_insert(&mut node, path, handler);
            match res {
                Ok(()) => {
                    let ghost old_trees = this.trees@;
                    let mut patterns: Vec<String> = Vec::new();
                    patterns.push(path.to_owned());
                    let entry = MethodTable { method, node, patterns, mixed: false };
                    let ghost new_entry = entry;
                    proof {
                        assert(new_entry.patterns.deep_view() =~~= seq![path@]);
                    }
                    this.trees.push(entry);
                    proof {
                        assert(this.trees@ =~= old_trees.push(new_entry));
                        lemma_find_tree_push(old_trees, new_entry);
                        assert(new_entry.wf()) by {
                            assert forall|other: Seq<char>|
                                #[trigger] mixes_of(new_entry.node, other) implies spec_any_mixed(
                                new_entry.patterns.deep_view(),
                                other,
                            ) by {
                                assert(!mixes_of(fresh, other));
                                assert(spec_mixed_pair(path@, other));
                                assert(new_entry.patterns.deep_view()[0] == path@);
                            }
                        }
                        if self.wf() {
                            assert forall|j: int|
                                0 <= j < this.trees@.len() implies (#[trigger] this.trees@[j]).wf()
                            by {
                                if j < old_trees.len() {
                                    assert(this.trees@[j] == old_trees[j]);
                                }
                            }
                        }
                    }
                    Ok(this)
                },
                Err(e) => Err(e),
            }
        }
    }

    /// Registers a handler for `GET` requests.
    pub fn get(self, path: &str, handler: u64) -> (r: Result<Router, RegisterError>)
        ensures
            spec_handle_post(self, path@, Method::Get, handler, r),
    {
        self.handle(path, Method::Get, handler)
    }

    /// Registers a handler for `HEAD` requests.
    pub fn head(self, path: &str, handler: u64) -> (r: Result<Router, RegisterError>)
        ensures
            spec_handle_post(self, path@, Method::Head, handler, r),
    {
        self.handle(path, Method::Head, handler)
    }

    /// Registers a handler for `OPTIONS` requests.
    pub fn options(self, path: &str, handler: u64) -> (r: Result<Router, RegisterError>)
        ensures
            spec_handle_post(self, path@, Method::Options, handler, r),
    {
        self.handle(path, Method::Options, handler)
    }

    /// Registers a handler for `POST` requests.
    pub fn post(self, path: &str, handler: u64) -> (r: Result<Router, RegisterError>)
        ensures
            spec_handle_post(self, path@, Method::Post, handler, r),
    {
        self.handle(path, Method::Post, handler)
    }

    /// Registers a handler for `PUT` requests.
    pub fn put(self, path: &str, handler: u64) -> (r: Result<Router, RegisterError>)
        ensures
            spec_handle_post(self, path@, Method::Put, handler, r),
    {
        self.handle(path, Method::Put, handler)
    }

    /// Registers a handler for `PATCH` requests.
    pub fn patch(self, path: &str, handler: u64) -> (r: Result<Router, RegisterError>)
        ensures
            spec_handle_post(self, path@, Method::Patch, handler, r),
    {
        self.handle(path, Method::Patch, handler)
    }

    /// Registers a handler for `DELETE` requests.
    pub fn delete(self, path: &str, handler: u64) -> (r: Result<Router, RegisterError>)
        ensures
            spec_handle_post(self, path@, Method::Delete, handler, r),
    {
        self.handle(path, Method::Delete, handler)
    }

    /// Enables automatic redirection when a route exists with or without the
    /// trailing slash and the request differs only in that slash.
    pub fn redirect_trailing_slash(self) -> (r: Router)
        ensures
            r == (Router { redirect_trailing_slash: true, ..self }),
    {
        let mut this = self;
        this.redirect_trailing_slash = true;
        this
    }

    /// Enables fixed-path recovery: the request path is cleaned and looked
    /// up case-insensitively, and a hit answers with a redirect.
    pub fn redirect_fixed_path(self) -> (r: Router)
        ensures
            r == (Router { redirect_fixed_path: true, ..self }),
    {
        let mut this = self;
        this.redirect_fixed_path = true;
        this
    }

    /// Enables the synthesized 405 answer when another method matches the
    /// path.
    pub fn handle_method_not_allowed(self) -> (r: Router)
        ensures
            r == (Router { handle_method_not_allowed: true, ..self }),
    {
        let mut this = self;
        this.handle_method_not_allowed = true;
        this
    }

    /// Enables the automatic reply to OPTIONS requests.
    pub fn handle_options(self) -> (r: Router)
        ensures
            r == (Router { handle_options: true, ..self }),
    {
        let mut this = self;
        this.handle_options = true;
        this
    }

    /// Sets the handler delegated to on automatic OPTIONS replies.
    pub fn global_options(self, handler: u64) -> (r: Router)
        ensures
            r == (Router { global_options: Some(handler), ..self }),
    {
        let mut this = self;
        this.global_options = Some(handler);
        this
    }

    /// Sets the handler called when no route matches.
    pub fn not_found(self, handler: u64) -> (r: Router)
        ensures
            r == (Router { not_found: Some(handler), ..self }),
    {
        let mut this = self;
        this.not_found = Some(handler);
        this
    }

    /// Sets the handler called instead of the synthesized 405.
    pub fn method_not_allowed(self, handler: u64) -> (r: Router)
        ensures
            r == (Router { method_not_allowed: Some(handler), ..self }),
    {
        let mut this = self;
        this.method_not_allowed = Some(handler);
        this
    }
}

impl Default for Router {
    /// A router with no routes, every policy on, and no fallback handlers
    /// configured. With `not_found` unset, an unmatched request resolves to
    /// the `NotFound` outcome, which synthesizes a bare 404; a host that
    /// wants a catch-all answer of its own registers one with `not_found`.
    fn default() -> (r: Router)
        ensures
            r.trees@.len() == 0,
            r.wf(),
            r.redirect_trailing_slash,
            r.redirect_fixed_path,
            r.handle_method_not_allowed,
            r.handle_options,
            r.global_options is None,
            r.not_found is None,
            r.method_not_allowed is None,
    {
        Router {
            trees: Vec::new(),
            redirect_trailing_slash: true,
            redirect_fixed_path: true,
            handle_method_not_allowed: true,
            handle_options: true,
            global_options: None,
            not_found: None,
            method_not_allowed: None,
        }
    }
}

/// Which names the matching-method list holds: exactly the names of the
/// non-OPTIONS methods whose tree matches the path.
proof fn lemma_allowed_list_members(trees: Seq<MethodTable>, path: Seq<char>)
    ensures
        forall|m: Method|
            !method_eq(m, Method::Options) ==> (spec_allowed_list(trees, path).contains(
                spec_method_name(m),
            ) <==> exists|i: int|
                0 <= i < trees.len() && method_eq((#[trigger] trees[i]).method, m) && lookup_of(
                    trees[i].node,
                    path,
                ) is Some),
        !spec_allowed_list(trees, path).contains("OPTIONS"@),
        (spec_allowed_list(trees, path).len() == 0 <==> forall|i: int|
            0 <= i < trees.len() ==> method_eq((#[trigger] trees[i]).method, Method::Options) || lookup_of(
                trees[i].node,
                path,
            ) is None),
    decreases trees.len(),
{
    if trees.len() == 0 {
    } else {
        lemma_allowed_list_members(trees.drop_last(), path);
        let prev = spec_allowed_list(trees.drop_last(), path);
        let cur = spec_allowed_list(trees, path);
        let last = trees.last();
        assert(forall|j: int| 0 <= j < trees.len() - 1 ==> trees.drop_last()[j] == trees[j]);
        if !method_eq(last.method, Method::Options) && lookup_of(last.node, path) is Some {
            assert(cur == prev.push(spec_method_name(last.method)));
            assert(forall|j: int| 0 <= j < prev.len() ==> cur[j] == prev[j]);
            assert(cur.last() == spec_method_name(last.method));
            assert forall|x: Seq<char>| #[trigger] cur.contains(x) implies prev.contains(x) || x
                == spec_method_name(last.method) by {
                let j = choose|j: int| 0 <= j < cur.len() && cur[j] == x;
                if j < prev.len() {
                    assert(prev[j] == x);
                }
            }
            assert forall|x: Seq<char>| prev.contains(x) implies cur.contains(x) by {
                let j = choose|j: int| 0 <= j < prev.len() && prev[j] == x;
                assert(cur[j] == x);
            }
            assert(cur.contains(cur.last()));
            assert forall|m: Method| !method_eq(m, Method::Options) implies (cur.contains(
                spec_method_name(m),
            ) <==> exists|i: int|
                0 <= i < trees.len() && method_eq((#[trigger] trees[i]).method, m) && lookup_of(
                    trees[i].node,
                    path,
                ) is Some) by {
                if cur.contains(spec_method_name(m)) {
                    if method_eq(m, last.method) {
                        assert(method_eq(trees[trees.len() - 1].method, m) && lookup_of(
                            trees[trees.len() - 1].node,
                            path,
                        ) is Some);
                    } else {
                        assert(prev.contains(spec_method_name(m)));
                        let i = choose|i: int|
                            0 <= i < trees.drop_last().len() && method_eq((#[trigger] trees.drop_last()[i]).method, m) && lookup_of(trees.drop_last()[i].node, path) is Some;
                        assert(method_eq(trees[i].method, m) && lookup_of(trees[i].node, path) is Some);
                    }
                }
                if exists|i: int|
                    0 <= i < trees.len() && method_eq((#[trigger] trees[i]).method, m) && lookup_of(
                        trees[i].node,
                        path,
                    ) is Some {
                    let i = choose|i: int|
                        0 <= i < trees.len() && method_eq((#[trigger] trees[i]).method, m) && lookup_of(
                            trees[i].node,
                            path,
                        ) is Some;
                    if i == trees.len() - 1 {
                        assert(cur.contains(spec_method_name(m)));
                    } else {
                        assert(method_eq(trees.drop_last()[i].method, m) && lookup_of(
                            trees.drop_last()[i].node,
                            path,
                        ) is Some);
                        assert(prev.contains(spec_method_name(m)));
                    }
                }
            }
        } else {
            assert(cur == prev);
            assert forall|m: Method| !method_eq(m, Method::Options) implies (cur.contains(
                spec_method_name(m),
            ) <==> exists|i: int|
                0 <= i < trees.len() && method_eq((#[trigger] trees[i]).method, m) && lookup_of(
                    trees[i].node,
                    path,
                ) is Some) by {
                if cur.contains(spec_method_name(m)) {
                    let i = choose|i: int|
                        0 <= i < trees.drop_last().len() && method_eq((#[trigger] trees.drop_last()[i]).method, m) && lookup_of(trees.drop_last()[i].node, path) is Some;
                    assert(method_eq(trees[i].method, m) && lookup_of(trees[i].node, path) is Some);
                }
                if exists|i: int|
                    0 <= i < trees.len() && method_eq((#[trigger] trees[i]).method, m) && lookup_of(
                        trees[i].node,
                        path,
                    ) is Some {
                    let i = choose|i: int|
                        0 <= i < trees.len() && method_eq((#[trigger] trees[i]).method, m) && lookup_of(
                            trees[i].node,
                            path,
                        ) is Some;
                    assert(i < trees.len() - 1);
                    assert(method_eq(trees.drop_last()[i].method, m) && lookup_of(
                        trees.drop_last()[i].node,
                        path,
                    ) is Some);
                }
            }
        }
    }
}

/// The allowed-methods computation is correct: a method other than OPTIONS
/// is listed exactly when its tree matches the path; OPTIONS is listed
/// exactly when some other method is; the list is empty exactly when no
/// method matches the path at all.
/// Under pairwise-distinct methods, the first entry for a method is its
/// only one: `spec_find_tree` and a search over the entries agree.
proof fn lemma_find_tree_char(trees: Seq<MethodTable>, m: Method)
    requires
        forall|i: int, j: int|
            0 <= i < j < trees.len() ==> !method_eq(
                (#[trigger] trees[i]).method,
                (#[trigger] trees[j]).method,
            ),
    ensures
        (spec_find_tree(trees, m) matches Some(e) ==> exists|i: int|
            0 <= i < trees.len() && #[trigger] trees[i] == e && method_eq(e.method, m)),
        forall|i: int|
            0 <= i < trees.len() && method_eq((#[trigger] trees[i]).method, m)
                ==> spec_find_tree(trees, m) == Some(trees[i]),
    decreases trees.len(),
{
    if trees.len() > 0 {
        let rest = trees.drop_first();
        assert forall|i: int, j: int| 0 <= i < j < rest.len() implies !method_eq(
            (#[trigger] rest[i]).method,
            (#[trigger] rest[j]).method,
        ) by {
            assert(rest[i] == trees[i + 1]);
            assert(rest[j] == trees[j + 1]);
        }
        lemma_find_tree_char(rest, m);
        if method_eq(trees[0].method, m) {
            assert forall|i: int|
                0 <= i < trees.len() && method_eq((#[trigger] trees[i]).method, m) implies spec_find_tree(
                trees,
                m,
            ) == Some(trees[i]) by {
                if i > 0 {
                    assert(!method_eq(trees[0].method, trees[i].method));
                }
            }
        } else {
            assert(spec_find_tree(trees, m) == spec_find_tree(rest, m));
            if spec_find_tree(rest, m) is Some {
                let e = spec_find_tree(rest, m)->0;
                let i = choose|i: int| 0 <= i < rest.len() && #[trigger] rest[i] == e && method_eq(
                    e.method,
                    m,
                );
                assert(trees[i + 1] == e);
            }
            assert forall|i: int|
                0 <= i < trees.len() && method_eq((#[trigger] trees[i]).method, m) implies spec_find_tree(
                trees,
                m,
            ) == Some(trees[i]) by {
                assert(i > 0);
                assert(rest[i - 1] == trees[i]);
            }
        }
    }
}

/// The allowed-methods computation is correct, read through the method's
/// own table: a method other than OPTIONS is listed exactly when its table
/// exists and its tree matches the path; OPTIONS is listed exactly when
/// some other method is; the list is empty exactly when no method matches
/// the path at all.
pub proof fn lemma_allowed_correct(r: Router, path: Seq<char>)
    requires
        path != "*"@,
        r.wf(),
    ensures
        forall|m: Method|
            !method_eq(m, Method::Options) ==> (spec_allowed(r, path).contains(
                spec_method_name(m),
            ) <==> (
            match spec_find_tree(r.trees@, m) {
                Some(e) => lookup_of(e.node, path) is Some,
                None => false,
            })),
        spec_allowed(r, path).contains("OPTIONS"@) <==> spec_allowed(r, path).len() > 0,
        (spec_allowed(r, path).len() == 0 <==> forall|i: int|
            0 <= i < r.trees@.len() ==> method_eq((#[trigger] r.trees@[i]).method, Method::Options) || lookup_of(
                r.trees@[i].node,
                path,
            ) is None),
{
    lemma_allowed_list_members(r.trees@, path);
    let names = spec_allowed_list(r.trees@, path);
    let full = spec_allowed(r, path);
    if names.len() == 0 {
    } else {
        assert(full == names.push("OPTIONS"@));
        assert(forall|j: int| 0 <= j < names.len() ==> full[j] == names[j]);
        assert(full.last() == "OPTIONS"@);
        assert(full.contains("OPTIONS"@));
        assert forall|x: Seq<char>| #[trigger] full.contains(x) implies names.contains(x) || x
            == "OPTIONS"@ by {
            let j = choose|j: int| 0 <= j < full.len() && full[j] == x;
            if j < names.len() {
                assert(names[j] == x);
            }
        }
        assert forall|x: Seq<char>| names.contains(x) implies full.contains(x) by {
            let j = choose|j: int| 0 <= j < names.len() && names[j] == x;
            assert(full[j] == x);
        }
    }
    assert forall|m: Method| !method_eq(m, Method::Options) implies (full.contains(
        spec_method_name(m),
    )
        <==> (match spec_find_tree(r.trees@, m) {
        Some(e) => lookup_of(e.node, path) is Some,
        None => false,
    })) by {
        lemma_find_tree_char(r.trees@, m);
        if exists|i: int|
            0 <= i < r.trees@.len() && method_eq((#[trigger] r.trees@[i]).method, m) && lookup_of(
                r.trees@[i].node,
                path,
            ) is Some {
            let i = choose|i: int|
                0 <= i < r.trees@.len() && method_eq((#[trigger] r.trees@[i]).method, m) && lookup_of(
                    r.trees@[i].node,
                    path,
                ) is Some;
            assert(spec_find_tree(r.trees@, m) == Some(r.trees@[i]));
        }
        match spec_find_tree(r.trees@, m) {
            Some(e) => {
                if lookup_of(e.node, path) is Some {
                    let i = choose|i: int|
                        0 <= i < r.trees@.len() && #[trigger] r.trees@[i] == e && method_eq(
                            e.method,
                            m,
                        );
                    assert(method_eq(r.trees@[i].method, m) && lookup_of(
                r.trees@[i].node,
                path,
            ) is Some);
                }
            },
            None => {},
        }
    }
}

/// Every redirect outcome carries the status the method demands: 301 for
/// GET, 308 for every other method.
pub proof fn lemma_redirect_status(r: Router, m: Method, path: Seq<char>)
    ensures
        (spec_resolve(r, m, path) matches OutcomeView::Redirect { location: _, status } ==> status
            == spec_status(m)),
        spec_status(Method::Get) == 301,
        !method_eq(m, Method::Get) ==> spec_status(m) == 308,
{
}

/// A parameter list with nothing in it, as a delegated fallback handler
/// receives it.
fn empty_params() -> (r: Params)
    ensures
        r@ == Seq::<(Seq<char>, Seq<char>)>::empty(),
{
    let r = Params { vec: Vec::new() };
    proof {
        assert(r@ =~= Seq::<(Seq<char>, Seq<char>)>::empty());
    }
    r
}

} // verus!
