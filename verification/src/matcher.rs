use vstd::prelude::*;

use crate::text::{is_space, is_space_char};

verus! {

/// Length of the scheme prefix the matcher accepts: `https://`,
/// `http://`, or nothing. The host token is matched case-sensitively,
/// so the scheme is too.
pub open spec fn scheme_len(s: Seq<char>) -> int {
    if s.len() >= 8 && s[0] == 'h' && s[1] == 't' && s[2] == 't' && s[3] == 'p' && s[4] == 's'
        && s[5] == ':' && s[6] == '/' && s[7] == '/' {
        8
    } else if s.len() >= 7 && s[0] == 'h' && s[1] == 't' && s[2] == 't' && s[3] == 'p' && s[4]
        == ':' && s[5] == '/' && s[6] == '/' {
        7
    } else {
        0
    }
}

/// The eleven characters `github.com/` stand in `s` at position `p`.
pub open spec fn host_at(s: Seq<char>, p: int) -> bool {
    0 <= p && p + 11 <= s.len() && s[p] == 'g' && s[p + 1] == 'i' && s[p + 2] == 't' && s[p + 3]
        == 'h' && s[p + 4] == 'u' && s[p + 5] == 'b' && s[p + 6] == '.' && s[p + 7] == 'c' && s[p
        + 8] == 'o' && s[p + 9] == 'm' && s[p + 10] == '/'
}

/// The owner/repo segment: everything after the scheme and host, with
/// one optional trailing slash removed.
pub open spec fn path_part(s: Seq<char>) -> Seq<char> {
    let t = s.skip(scheme_len(s) + 11);
    if t.len() > 0 && t.last() == '/' {
        t.drop_last()
    } else {
        t
    }
}

/// A well-shaped `owner/repo` segment: wholly free of whitespace, with
/// a slash that has at least one character on each side.
pub open spec fn is_repo_path(v: Seq<char>) -> bool {
    (forall|i: int| 0 <= i < v.len() ==> !is_space_char(#[trigger] v[i])) && (exists|i: int|
        1 <= i <= v.len() - 2 && #[trigger] v[i] == '/')
}

/// The whole URL has the accepted shape
/// `(https?://)?github.com/<owner>/<repo>(/)?`.
pub open spec fn matches_github(s: Seq<char>) -> bool {
    host_at(s, scheme_len(s)) && is_repo_path(path_part(s))
}

/// The canonical commits endpoint for an `owner/repo` segment.
pub open spec fn endpoint_of(mid: Seq<char>) -> Seq<char> {
    "https://api.github.com/repos/"@ + mid + "/commits?per_page=100"@
}

/// What the matcher yields on a URL: the canonical endpoint for a
/// GitHub-shaped URL, nothing for every other string.
pub open spec fn gh_endpoint(s: Seq<char>) -> Option<Seq<char>> {
    if matches_github(s) {
        Some(endpoint_of(path_part(s)))
    } else {
        None
    }
}

/// Classifies and normalizes a free-text repository URL. A URL of the
/// shape `(https?://)?github.com/<owner>/<repo>(/)?` maps to
/// `https://api.github.com/repos/<owner>/<repo>/commits?per_page=100`;
/// every other string yields `None` and is thereby dropped from
/// aggregation rather than reported as an error. Pure and
/// deterministic; no I/O.
pub fn match_repo_url(url: &str) -> (r: Option<String>)
    ensures
        r is Some <==> matches_github(url@),
        r matches Some(e) ==> e@ == endpoint_of(path_part(url@)),
{
    let n = url.unicode_len();
    let p: usize = if n >= 8 && url.get_char(0) == 'h' && url.get_char(1) == 't' && url.get_char(2)
        == 't' && url.get_char(3) == 'p' && url.get_char(4) == 's' && url.get_char(5) == ':'
        && url.get_char(6) == '/' && url.get_char(7) == '/' {
        8
    } else if n >= 7 && url.get_char(0) == 'h' && url.get_char(1) == 't' && url.get_char(2) == 't'
        && url.get_char(3) == 'p' && url.get_char(4) == ':' && url.get_char(5) == '/'
        && url.get_char(6) == '/' {
        7
    } else {
        0
    };
    proof {
        assert(p == scheme_len(url@));
    }
    if n - p < 11 || !(url.get_char(p) == 'g' && url.get_char(p + 1) == 'i' && url.get_char(p + 2)
        == 't' && url.get_char(p + 3) == 'h' && url.get_char(p + 4) == 'u' && url.get_char(p + 5)
        == 'b' && url.get_char(p + 6) == '.' && url.get_char(p + 7) == 'c' && url.get_char(p + 8)
        == 'o' && url.get_char(p + 9) == 'm' && url.get_char(p + 10) == '/') {
        proof {
            assert(!host_at(url@, scheme_len(url@)));
        }
        return None;
    }
    let start = p + 11;
    let mut end = n;
    if end > start && url.get_char(end - 1) == '/' {
        end = end - 1;
    }
    proof {
        assert(url@.skip(start as int) =~= url@.subrange(start as int, n as int));
        assert(path_part(url@) =~= url@.subrange(start as int, end as int));
    }
    let ghost v = url@.subrange(start as int, end as int);
    let mut has_slash = false;
    let mut i = start;
    while i < end
        invariant
            n == url@.len(),
            start <= i <= end <= n,
            v == url@.subrange(start as int, end as int),
            path_part(url@) == v,
            host_at(url@, scheme_len(url@)),
            forall|j: int| start <= j < i ==> !is_space_char(#[trigger] url@[j]),
            has_slash <==> (exists|j: int|
                start < j < i && j + 2 <= end && #[trigger] url@[j] == '/'),
        decreases end - i,
    {
        let c = url.get_char(i);
        if is_space(c) {
            proof {
                assert(v[i - start] == url@[i as int]);
                assert(!is_repo_path(v));
            }
            return None;
        }
        if c == '/' && i > start && end - i >= 2 {
            has_slash = true;
            proof {
                assert(start < i && i + 2 <= end && url@[i as int] == '/');
            }
        }
        i += 1;
    }
    if !has_slash {
        proof {
            assert forall|k: int| !(1 <= k <= v.len() - 2 && #[trigger] v[k] == '/') by {
                if 1 <= k <= v.len() - 2 && v[k] == '/' {
                    assert(url@[start + k] == '/');
                    assert(start < start + k < end && (start + k) + 2 <= end);
                }
            }
            assert(!is_repo_path(v));
        }
        return None;
    }
    proof {
        assert forall|k: int| 0 <= k < v.len() implies !is_space_char(#[trigger] v[k]) by {
            assert(v[k] == url@[start + k]);
        }
        let j = choose|j: int| start < j < end && j + 2 <= end && #[trigger] url@[j] == '/';
        assert(v[j - start] == url@[j]);
        assert(1 <= j - start <= v.len() - 2);
        assert(is_repo_path(v));
        assert(matches_github(url@));
    }
    let mid = url.substring_char(start, end);
    let mut out = String::from_str("https://api.github.com/repos/");
    out.append(mid);
    out.append("/commits?per_page=100");
    proof {
        assert(out@ == endpoint_of(v));
    }
    Some(out)
}

} // verus!
