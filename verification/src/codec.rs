use vstd::prelude::*;

verus! {

/// serde_json's error type, declared so a decoder result can carry it;
/// opaque to this crate.
#[verifier::external_type_specification]
#[verifier::external_body]
pub struct ExJsonError(serde_json::Error);

/// What `serde_json::from_str::<Vec<String>>` yields on a given text:
/// the decoded entries when the text is a JSON array of strings,
/// nothing when decoding fails. The result depends on the text alone;
/// only its name is stated here, not the JSON grammar.
pub uninterp spec fn json_str_list(s: Seq<char>) -> Option<Seq<Seq<char>>>;

/// Relies on `serde_json::from_str::<Vec<String>>`: decodes a JSON
/// array of strings, deterministically in its input.
#[verifier::external_body]
fn decode_str_list(s: &str) -> (r: Result<Vec<String>, serde_json::Error>)
    ensures
        r is Ok <==> json_str_list(s@) is Some,
        r matches Ok(v) ==> Some(v.deep_view()) == json_str_list(s@),
{
    serde_json::from_str::<Vec<String>>(s)
}

/// The non-empty entries of `l`, in order.
pub open spec fn nonempty_entries(l: Seq<Seq<char>>) -> Seq<Seq<char>>
    decreases l.len(),
{
    if l.len() == 0 {
        Seq::empty()
    } else {
        let rest = nonempty_entries(l.drop_last());
        if l.last().len() > 0 {
            rest.push(l.last())
        } else {
            rest
        }
    }
}

/// Every entry that `nonempty_entries` keeps is non-empty.
pub proof fn lemma_nonempty_entries_nonempty(l: Seq<Seq<char>>)
    ensures
        forall|k: int|
            0 <= k < nonempty_entries(l).len() ==> (#[trigger] nonempty_entries(l)[k]).len() > 0,
    decreases l.len(),
{
    if l.len() > 0 {
        lemma_nonempty_entries_nonempty(l.drop_last());
        let rest = nonempty_entries(l.drop_last());
        if l.last().len() > 0 {
            assert(nonempty_entries(l) == rest.push(l.last()));
            assert forall|k: int|
                0 <= k < nonempty_entries(l).len() implies (#[trigger] nonempty_entries(
                l,
            )[k]).len() > 0 by {
                if k < rest.len() {
                    assert(nonempty_entries(l)[k] == rest[k]);
                } else {
                    assert(nonempty_entries(l)[k] == l.last());
                }
            }
        } else {
            assert(nonempty_entries(l) == rest);
        }
    }
}

/// Decodes a submitted repository-list encoding and discards its empty
/// entries; a malformed encoding is a validation error.
pub fn normalize_repos(encoded: &str) -> (r: Result<Vec<String>, crate::errors::ServiceError>)
    ensures
        r is Ok <==> json_str_list(encoded@) is Some,
        r matches Ok(v) ==> v.deep_view() == nonempty_entries(json_str_list(encoded@).unwrap()),
        r matches Err(e) ==> e == crate::errors::ServiceError::Validation,
{
    let decoded: Vec<String> = match decode_str_list(encoded) {
        Ok(v) => v,
        Err(_) => {
            return Err(crate::errors::ServiceError::Validation);
        },
    };
    let ghost l = decoded.deep_view();
    let mut out: Vec<String> = Vec::new();
    let mut i: usize = 0;
    while i < decoded.len()
        invariant
            l == decoded.deep_view(),
            i <= decoded@.len(),
            l.len() == decoded@.len(),
            out.deep_view() == nonempty_entries(l.take(i as int)),
        decreases decoded@.len() - i,
    {
        proof {
            assert(l.take(i + 1).drop_last() =~= l.take(i as int));
            assert(l.take(i + 1).last() == l[i as int]);
            assert(l[i as int] == decoded@[i as int]@);
        }
        if !decoded[i].as_str().is_empty() {
            out.push(decoded[i].clone());
            proof {
                assert(out.deep_view() =~= nonempty_entries(l.take(i + 1)));
            }
        } else {
            proof {
                assert(out.deep_view() =~= nonempty_entries(l.take(i + 1)));
            }
        }
        i += 1;
    }
    proof {
        assert(l.take(decoded@.len() as int) =~= l);
    }
    Ok(out)
}

} // verus!
