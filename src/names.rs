//! Type names: the bare identifier of a type, with its path stripped.
use vstd::prelude::*;
use vstd::string::StrSliceExecFns;

verus! {

broadcast use vstd::string::group_string_axioms;

/// Whether `s` holds the separator `::` ending at index `k`.
pub open spec fn separator_at(s: Seq<char>, k: int) -> bool {
    2 <= k <= s.len() && s[k - 2] == ':' && s[k - 1] == ':'
}

/// Where the last segment of `s[..j]` starts: just after the last separator
/// that ends at or before `j`, or 0 where there is none.
pub open spec fn segment_start(s: Seq<char>, j: int) -> int
    decreases j,
{
    if j < 2 {
        0
    } else if separator_at(s, j) {
        j
    } else {
        segment_start(s, j - 1)
    }
}

/// What follows the last `::` of `s`; all of `s` where it holds none.
pub open spec fn last_segment(s: Seq<char>) -> Seq<char> {
    s.subrange(segment_start(s, s.len() as int), s.len() as int)
}

proof fn lemma_segment_start(s: Seq<char>, j: int)
    requires
        0 <= j <= s.len(),
    ensures
        0 <= segment_start(s, j) <= j,
        forall|k: int| segment_start(s, j) + 2 <= k <= j ==> !separator_at(s, k),
    decreases j,
{
    if j >= 2 && !separator_at(s, j) {
        lemma_segment_start(s, j - 1);
    }
}

/// The last segment of a path holds no separator.
pub proof fn lemma_last_segment_bare(s: Seq<char>)
    ensures
        forall|k: int| 2 <= k <= last_segment(s).len() ==> !separator_at(last_segment(s), k),
{
    let st = segment_start(s, s.len() as int);
    lemma_segment_start(s, s.len() as int);
    assert forall|k: int| 2 <= k <= last_segment(s).len() implies !separator_at(
        last_segment(s),
        k,
    ) by {
        assert(last_segment(s)[k - 2] == s[st + k - 2]);
        assert(last_segment(s)[k - 1] == s[st + k - 1]);
        assert(!separator_at(s, st + k));
    }
}

/// The bare name of a type from its full path: what follows the last `::`.
pub fn bare_name(full: &str) -> (r: String)
    ensures
        r@ == last_segment(full@),
        forall|k: int| 2 <= k <= r@.len() ==> !separator_at(r@, k),
{
    let n = full.unicode_len();
    let mut j: usize = n;
    let mut found = false;
    while j >= 2 && !found
        invariant
            j <= n,
            n == full@.len(),
            segment_start(full@, n as int) == segment_start(full@, j as int),
            found ==> j >= 2 && separator_at(full@, j as int),
        decreases j, if found { 0int } else { 1int },
    {
        if full.get_char(j - 2) == ':' && full.get_char(j - 1) == ':' {
            found = true;
        } else {
            j = j - 1;
        }
    }
    let start: usize = if found {
        j
    } else {
        0
    };
    proof {
        lemma_segment_start(full@, n as int);
        lemma_last_segment_bare(full@);
    }
    full.substring_char(start, n).to_string()
}

/// Relies on String::leak: the returned slice holds the string's characters
/// and lives as long as the program.
#[verifier::external_body]
fn leak_string(s: String) -> (r: &'static str)
    ensures
        r@ == s@,
{
    s.leak()
}

/// A copy of `s` that lives as long as the program.
pub fn leak_str(s: &str) -> (r: &'static str)
    ensures
        r@ == s@,
{
    leak_string(s.to_string())
}

} // verus!
