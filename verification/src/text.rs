use vstd::prelude::*;

verus! {

/// The Unicode White_Space characters, as `char::is_whitespace` has
/// them; a repository path segment may not contain any of these.
pub open spec fn is_space_char(c: char) -> bool {
    c == '\u{0009}' || c == '\u{000A}' || c == '\u{000B}' || c == '\u{000C}' || c == '\u{000D}'
        || c == ' ' || c == '\u{0085}' || c == '\u{00A0}' || c == '\u{1680}' || c == '\u{2000}'
        || c == '\u{2001}' || c == '\u{2002}' || c == '\u{2003}' || c == '\u{2004}'
        || c == '\u{2005}' || c == '\u{2006}' || c == '\u{2007}' || c == '\u{2008}'
        || c == '\u{2009}' || c == '\u{200A}' || c == '\u{2028}' || c == '\u{2029}'
        || c == '\u{202F}' || c == '\u{205F}' || c == '\u{3000}'
}

/// Decides `is_space_char`.
pub fn is_space(c: char) -> (r: bool)
    ensures
        r == is_space_char(c),
{
    c == '\u{0009}' || c == '\u{000A}' || c == '\u{000B}' || c == '\u{000C}' || c == '\u{000D}'
        || c == ' ' || c == '\u{0085}' || c == '\u{00A0}' || c == '\u{1680}' || c == '\u{2000}'
        || c == '\u{2001}' || c == '\u{2002}' || c == '\u{2003}' || c == '\u{2004}'
        || c == '\u{2005}' || c == '\u{2006}' || c == '\u{2007}' || c == '\u{2008}'
        || c == '\u{2009}' || c == '\u{200A}' || c == '\u{2028}' || c == '\u{2029}'
        || c == '\u{202F}' || c == '\u{205F}' || c == '\u{3000}'
}

/// Character-for-character string equality.
pub fn str_eq(a: &str, b: &str) -> (r: bool)
    ensures
        r == (a@ == b@),
{
    let an = a.unicode_len();
    let bn = b.unicode_len();
    if an != bn {
        return false;
    }
    let mut i: usize = 0;
    while i < an
        invariant
            an == a@.len(),
            an == b@.len(),
            i <= an,
            forall|j: int| 0 <= j < i ==> a@[j] == b@[j],
        decreases an - i,
    {
        if a.get_char(i) != b.get_char(i) {
            return false;
        }
        i += 1;
    }
    proof {
        assert(a@ =~= b@);
    }
    true
}

/// `needle` occurs in `hay` starting at position `i`.
pub open spec fn occurs_at(hay: Seq<char>, needle: Seq<char>, i: int) -> bool {
    0 <= i && i + needle.len() <= hay.len() && hay.subrange(i, i + needle.len()) == needle
}

/// `needle` occurs somewhere in `hay` (the empty string occurs in every string).
pub open spec fn contains_seq(hay: Seq<char>, needle: Seq<char>) -> bool {
    exists|i: int| occurs_at(hay, needle, i)
}

/// Substring search: whether `needle` occurs contiguously in `hay`.
pub fn contains_substring(hay: &str, needle: &str) -> (r: bool)
    ensures
        r == contains_seq(hay@, needle@),
{
    let hn = hay.unicode_len();
    let nn = needle.unicode_len();
    if nn > hn {
        proof {
            assert(forall|i: int| !occurs_at(hay@, needle@, i));
        }
        return false;
    }
    let mut i: usize = 0;
    loop
        invariant
            hn == hay@.len(),
            nn == needle@.len(),
            nn <= hn,
            i <= hn - nn,
            forall|k: int| 0 <= k < i ==> !occurs_at(hay@, needle@, k),
        decreases hn - nn - i,
    {
        let mut j: usize = 0;
        let mut mismatch = false;
        while j < nn
            invariant
                hn == hay@.len(),
                nn == needle@.len(),
                i + nn <= hn,
                j <= nn,
                !mismatch ==> forall|t: int| 0 <= t < j ==> hay@[i + t] == needle@[t],
                mismatch ==> !occurs_at(hay@, needle@, i as int),
            decreases nn - j,
        {
            if hay.get_char(i + j) != needle.get_char(j) {
                proof {
                    if occurs_at(hay@, needle@, i as int) {
                        assert(hay@.subrange(i as int, i + nn)[j as int] == needle@[j as int]);
                    }
                }
                mismatch = true;
                j = nn;
            } else {
                j += 1;
            }
        }
        if !mismatch {
            proof {
                assert(hay@.subrange(i as int, i + nn) =~= needle@);
                assert(occurs_at(hay@, needle@, i as int));
            }
            return true;
        }
        if i == hn - nn {
            proof {
                assert forall|k: int| !occurs_at(hay@, needle@, k) by {
                    if 0 <= k && k + needle@.len() <= hay@.len() {
                        assert(k <= i);
                    }
                }
            }
            return false;
        }
        i += 1;
    }
}

} // verus!
