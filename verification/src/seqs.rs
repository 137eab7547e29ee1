use vstd::prelude::*;

verus! {

/// The least index at or after `start` whose element satisfies `p`.
pub open spec fn first_from<T>(s: Seq<T>, p: spec_fn(T) -> bool, start: int) -> Option<int>
    decreases s.len() - start,
{
    if start < 0 || start >= s.len() {
        None
    } else if p(s[start]) {
        Some(start)
    } else {
        first_from(s, p, start + 1)
    }
}

/// The least index whose element satisfies `p`.
pub open spec fn first_index<T>(s: Seq<T>, p: spec_fn(T) -> bool) -> Option<int> {
    first_from(s, p, 0)
}

/// A linear search that stopped at `j` found the first match, or none.
pub proof fn lemma_first_index<T>(s: Seq<T>, p: spec_fn(T) -> bool, j: int)
    requires
        0 <= j <= s.len(),
        forall|k: int| 0 <= k < j ==> !p(#[trigger] s[k]),
        j == s.len() || p(s[j]),
    ensures
        first_index(s, p) == (if j == s.len() {
            None::<int>
        } else {
            Some(j)
        }),
{
    lemma_first_from(s, p, 0, j);
}

proof fn lemma_first_from<T>(s: Seq<T>, p: spec_fn(T) -> bool, start: int, j: int)
    requires
        0 <= start <= j <= s.len(),
        forall|k: int| start <= k < j ==> !p(#[trigger] s[k]),
        j == s.len() || p(s[j]),
    ensures
        first_from(s, p, start) == (if j == s.len() {
            None::<int>
        } else {
            Some(j)
        }),
    decreases j - start,
{
    if start < j {
        assert(!p(s[start]));
        lemma_first_from(s, p, start + 1, j);
    }
}

/// What `first_index` finds satisfies `p`, and nothing before it does.
pub proof fn lemma_first_index_props<T>(s: Seq<T>, p: spec_fn(T) -> bool)
    ensures
        match first_index(s, p) {
            Some(j) => 0 <= j < s.len() && p(s[j]) && forall|k: int| 0 <= k < j ==> !p(#[trigger] s[k]),
            None => forall|k: int| 0 <= k < s.len() ==> !p(#[trigger] s[k]),
        },
{
    lemma_first_from_props(s, p, 0);
}

proof fn lemma_first_from_props<T>(s: Seq<T>, p: spec_fn(T) -> bool, start: int)
    requires
        0 <= start,
    ensures
        match first_from(s, p, start) {
            Some(j) => start <= j < s.len() && p(s[j]) && forall|k: int| start <= k < j ==> !p(#[trigger] s[k]),
            None => forall|k: int| start <= k < s.len() ==> !p(#[trigger] s[k]),
        },
    decreases s.len() - start,
{
    if start < s.len() && !p(s[start]) {
        lemma_first_from_props(s, p, start + 1);
    }
}

} // verus!
