use vstd::prelude::*;

use crate::matcher::{gh_endpoint, match_repo_url};

verus! {

/// serde_json's document type, declared so commit payloads can be
/// carried through as opaque values: one provider response per
/// repository, not modelled further here.
#[verifier::external_type_specification]
#[verifier::external_body]
pub struct ExValue(serde_json::Value);

/// The canonical endpoints of the GitHub-shaped entries of `rs`, in
/// the order of `rs`; every other entry is dropped.
pub open spec fn spec_endpoints(rs: Seq<Seq<char>>) -> Seq<Seq<char>>
    decreases rs.len(),
{
    if rs.len() == 0 {
        Seq::empty()
    } else {
        let rest = spec_endpoints(rs.drop_last());
        match gh_endpoint(rs.last()) {
            Some(e) => rest.push(e),
            None => rest,
        }
    }
}

/// What aggregation is asked to fetch for a repository list: nothing
/// when the list is empty ("no repos configured"), nothing when no
/// entry is GitHub-shaped ("nothing supported"), otherwise the
/// canonical endpoints in list order.
pub open spec fn spec_plan(rs: Seq<Seq<char>>) -> Option<Seq<Seq<char>>> {
    if rs.len() == 0 {
        None
    } else if spec_endpoints(rs).len() == 0 {
        None
    } else {
        Some(spec_endpoints(rs))
    }
}

/// Maps the matcher over a repository list, keeping the canonical
/// endpoints of the supported entries in input order.
pub fn repo_endpoints(repos: &Vec<String>) -> (r: Vec<String>)
    ensures
        r.deep_view() == spec_endpoints(repos.deep_view()),
{
    let ghost rv = repos.deep_view();
    let mut out: Vec<String> = Vec::new();
    let mut i: usize = 0;
    while i < repos.len()
        invariant
            rv == repos.deep_view(),
            rv.len() == repos@.len(),
            i <= repos@.len(),
            out.deep_view() == spec_endpoints(rv.take(i as int)),
        decreases repos@.len() - i,
    {
        proof {
            assert(rv.take(i + 1).drop_last() =~= rv.take(i as int));
            assert(rv.take(i + 1).last() == rv[i as int]);
            assert(rv[i as int] == repos@[i as int]@);
        }
        match match_repo_url(repos[i].as_str()) {
            Some(e) => {
                out.push(e);
                proof {
                    assert(out.deep_view() =~= spec_endpoints(rv.take(i + 1)));
                }
            },
            None => {
                proof {
                    assert(out.deep_view() =~= spec_endpoints(rv.take(i + 1)));
                }
            },
        }
        i += 1;
    }
    proof {
        assert(rv.take(repos@.len() as int) =~= rv);
    }
    out
}

/// Plans an aggregation run: `None` when the repository list is empty
/// or none of its entries is supported, otherwise the endpoints to
/// fetch, one per supported entry, in list order.
pub fn aggregate_plan(repos: &Vec<String>) -> (r: Option<Vec<String>>)
    ensures
        r is Some <==> spec_plan(repos.deep_view()) is Some,
        r matches Some(v) ==> Some(v.deep_view()) == spec_plan(repos.deep_view()),
{
    if repos.len() == 0 {
        return None;
    }
    let endpoints = repo_endpoints(repos);
    if endpoints.len() == 0 {
        None
    } else {
        Some(endpoints)
    }
}

/// Merges the fetch outcomes of one aggregation run, one outcome per
/// planned endpoint in plan order. Every payload must be present: a
/// single failed fetch is fatal to the whole aggregation and surfaces
/// as an upstream error, never as a silently shorter result.
#[verifier::loop_isolation(false)]
pub fn collect_fetched(fetched: Vec<Option<serde_json::Value>>) -> (r: Result<
    Vec<serde_json::Value>,
    crate::errors::ServiceError,
>)
    ensures
        r is Ok <==> (forall|i: int| 0 <= i < fetched@.len() ==> (#[trigger] fetched@[i]) is Some),
        r matches Ok(v) ==> v@.len() == fetched@.len() && (forall|i: int|
            0 <= i < fetched@.len() ==> ((#[trigger] fetched@[i]) matches Some(d) && v@[i] == d)),
        r matches Err(e) ==> e == crate::errors::ServiceError::Upstream,
{
    let ghost orig = fetched@;
    let mut rest = fetched;
    let mut out: Vec<serde_json::Value> = Vec::new();
    while rest.len() > 0
        invariant
            out@.len() + rest@.len() == orig.len(),
            rest@ == orig.skip(out@.len() as int),
            forall|j: int|
                0 <= j < out@.len() ==> ((#[trigger] orig[j]) matches Some(d) && out@[j] == d),
        decreases rest@.len(),
    {
        let ghost k = out@.len() as int;
        proof {
            assert(rest@[0] == orig[k]);
        }
        let head = rest.remove(0);
        match head {
            Some(d) => {
                out.push(d);
                proof {
                    assert(rest@ =~= orig.skip(out@.len() as int));
                }
            },
            None => {
                proof {
                    assert(fetched@[k] is None);
                }
                return Err(crate::errors::ServiceError::Upstream);
            },
        }
    }
    Ok(out)
}

} // verus!
