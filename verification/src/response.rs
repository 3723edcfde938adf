//! Turning an outcome into a response.
//!
//! Every outcome but `Invoke` resolves immediately to a synthesized
//! response: a redirect with a `Location` header, an automatic OPTIONS reply
//! or a 405 with an `Allow` header, or a bare 404. An `Invoke` outcome
//! carries no synthesized response: the handler's own deferred computation
//! answers, forwarded unchanged by the host.

use vstd::prelude::*;
use vstd::string::StringExecFns;

use crate::router::Method;
use crate::router::Outcome;
use crate::router::OutcomeView;
use crate::router::Router;
use crate::router::spec_allowed;
use crate::router::spec_resolve;

verus! {

/// A response synthesized without running any handler.
pub struct SynthesizedResponse {
    /// The HTTP status code.
    pub status: u16,
    /// The `Location` header, on redirects.
    pub location: Option<String>,
    /// The `Allow` header, on automatic OPTIONS and 405 answers.
    pub allow: Option<String>,
}

/// The mathematical shape of a synthesized response.
pub struct SynthesizedResponseView {
    pub status: u16,
    pub location: Option<Seq<char>>,
    pub allow: Option<Seq<char>>,
}

impl View for SynthesizedResponse {
    type V = SynthesizedResponseView;

    open spec fn view(&self) -> SynthesizedResponseView {
        SynthesizedResponseView {
            status: self.status,
            location: match self.location {
                Some(l) => Some(l@),
                None => None,
            },
            allow: match self.allow {
                Some(a) => Some(a@),
                None => None,
            },
        }
    }
}

/// The names joined with `", "`, the way the `Allow` header lists them.
pub open spec fn spec_join_allow(items: Seq<Seq<char>>) -> Seq<char>
    decreases items.len(),
{
    if items.len() == 0 {
        Seq::<char>::empty()
    } else if items.len() == 1 {
        items[0]
    } else {
        spec_join_allow(items.drop_last()) + ", "@ + items.last()
    }
}

/// Joins the allowed method names for the `Allow` header.
pub fn join_allow(items: &Vec<String>) -> (r: String)
    ensures
        r@ == spec_join_allow(items.deep_view()),
{
    let mut out = String::new();
    let n = items.len();
    proof {
        assert(items.deep_view().take(0) =~= Seq::<Seq<char>>::empty());
    }
    for k in 0..n
        invariant
            n == items.len(),
            out@ == spec_join_allow(items.deep_view().take(k as int)),
    {
        let ghost prev = out@;
        proof {
            assert(items.deep_view().take(k as int + 1).drop_last() =~= items.deep_view().take(
                k as int,
            ));
            assert(items.deep_view().take(k as int + 1).last() == items@[k as int]@);
        }
        if k > 0 {
            out.append(", ");
        }
        out.append(items[k].as_str());
        proof {
            if k == 0 {
                assert(out@ =~= items@[0]@);
            }
        }
    }
    proof {
        assert(items.deep_view().take(n as int) =~= items.deep_view());
    }
    out
}

/// The response an outcome synthesizes: nothing for `Invoke`, the redirect
/// with its status and `Location`, the OPTIONS reply under the default
/// success status with its `Allow` list, the 405 with its `Allow` list, and
/// the bare 404.
pub open spec fn spec_synthesize(o: OutcomeView) -> Option<SynthesizedResponseView> {
    match o {
        OutcomeView::Invoke { handler: _, params: _ } => None,
        OutcomeView::Redirect { location, status } => Some(
            SynthesizedResponseView { status, location: Some(location), allow: None },
        ),
        OutcomeView::AutoOptions { allow } => Some(
            SynthesizedResponseView {
                status: 200,
                location: None,
                allow: Some(spec_join_allow(allow)),
            },
        ),
        OutcomeView::MethodNotAllowed { allow } => Some(
            SynthesizedResponseView {
                status: 405,
                location: None,
                allow: Some(spec_join_allow(allow)),
            },
        ),
        OutcomeView::NotFound => Some(
            SynthesizedResponseView { status: 404, location: None, allow: None },
        ),
    }
}

/// Synthesizes the response for an outcome, or reports that only the invoked
/// handler can answer.
pub fn synthesize(o: &Outcome) -> (r: Option<SynthesizedResponse>)
    ensures
        (r is None <==> spec_synthesize(o@) is None),
        (r matches Some(s) ==> spec_synthesize(o@) == Some(s@)),
{
    match o {
        Outcome::Invoke { .. } => None,
        Outcome::Redirect { location, status } => Some(
            SynthesizedResponse { status: *status, location: Some(location.clone()), allow: None },
        ),
        Outcome::AutoOptions { allow } => Some(
            SynthesizedResponse { status: 200, location: None, allow: Some(join_allow(allow)) },
        ),
        Outcome::MethodNotAllowed { allow } => Some(
            SynthesizedResponse { status: 405, location: None, allow: Some(join_allow(allow)) },
        ),
        Outcome::NotFound => Some(
            SynthesizedResponse { status: 404, location: None, allow: None },
        ),
    }
}

/// A synthesized 405 reply always names exactly the methods allowed for
/// the path, OPTIONS last, joined by `", "` in the `Allow` header, under
/// status 405.
pub proof fn lemma_method_not_allowed_reply(r: Router, m: Method, path: Seq<char>)
    ensures
        (spec_resolve(r, m, path) matches OutcomeView::MethodNotAllowed { allow } ==> {
            &&& allow == spec_allowed(r, path)
            &&& allow.len() > 0
            &&& allow.last() == "OPTIONS"@
            &&& spec_synthesize(spec_resolve(r, m, path)) == Some(
                SynthesizedResponseView {
                    status: 405,
                    location: None,
                    allow: Some(spec_join_allow(allow)),
                },
            )
        }),
{
}

/// A synthesized automatic OPTIONS reply always names exactly the methods
/// allowed for the path, OPTIONS last, joined by `", "` in the `Allow`
/// header, under the default success status.
pub proof fn lemma_auto_options_reply(r: Router, m: Method, path: Seq<char>)
    ensures
        (spec_resolve(r, m, path) matches OutcomeView::AutoOptions { allow } ==> {
            &&& allow == spec_allowed(r, path)
            &&& allow.len() > 0
            &&& allow.last() == "OPTIONS"@
            &&& spec_synthesize(spec_resolve(r, m, path)) == Some(
                SynthesizedResponseView {
                    status: 200,
                    location: None,
                    allow: Some(spec_join_allow(allow)),
                },
            )
        }),
{
}

} // verus!
