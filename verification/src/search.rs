use vstd::prelude::*;

verus! {

/// `i` is the first place of `s` whose item meets `p`.
pub open spec fn is_first<T>(s: Seq<T>, p: spec_fn(T) -> bool, i: int) -> bool {
    &&& 0 <= i < s.len()
    &&& p(s[i])
    &&& forall|j: int| 0 <= j < i ==> !p(#[trigger] s[j])
}

/// The first place of `s` whose item meets `p`, if any item does.
pub open spec fn first_index<T>(s: Seq<T>, p: spec_fn(T) -> bool) -> Option<int> {
    if exists|i: int| is_first(s, p, i) {
        Some(choose|i: int| is_first(s, p, i))
    } else {
        None
    }
}

/// `i` is the last place of `s` whose item meets `p`.
pub open spec fn is_last<T>(s: Seq<T>, p: spec_fn(T) -> bool, i: int) -> bool {
    &&& 0 <= i < s.len()
    &&& p(s[i])
    &&& forall|j: int| i < j < s.len() ==> !p(#[trigger] s[j])
}

/// The last place of `s` whose item meets `p`, if any item does.
pub open spec fn last_index<T>(s: Seq<T>, p: spec_fn(T) -> bool) -> Option<int> {
    if exists|i: int| is_last(s, p, i) {
        Some(choose|i: int| is_last(s, p, i))
    } else {
        None
    }
}

/// The place that `is_first` is the one that `first_index` names.
pub proof fn lemma_first_found<T>(s: Seq<T>, p: spec_fn(T) -> bool, i: int)
    requires
        is_first(s, p, i),
    ensures
        first_index(s, p) == Some(i),
{
    let k = choose|k: int| is_first(s, p, k);
    if k < i {
        assert(!p(s[k]));
    } else if i < k {
        assert(!p(s[i]));
    }
}

/// Where no item meets `p`, `first_index` names no place.
pub proof fn lemma_first_absent<T>(s: Seq<T>, p: spec_fn(T) -> bool)
    requires
        forall|j: int| 0 <= j < s.len() ==> !p(#[trigger] s[j]),
    ensures
        first_index(s, p) is None,
{
    if exists|i: int| is_first(s, p, i) {
        let k = choose|k: int| is_first(s, p, k);
        assert(!p(s[k]));
    }
}

/// What `first_index` says of its result.
pub proof fn lemma_first_index<T>(s: Seq<T>, p: spec_fn(T) -> bool)
    ensures
        match first_index(s, p) {
            Some(i) => is_first(s, p, i),
            None => forall|j: int| 0 <= j < s.len() ==> !p(#[trigger] s[j]),
        },
{
    if !exists|i: int| is_first(s, p, i) {
        assert forall|j: int| 0 <= j < s.len() implies !p(#[trigger] s[j]) by {
            lemma_no_first_no_item(s, p, j);
        }
    }
}

proof fn lemma_no_first_no_item<T>(s: Seq<T>, p: spec_fn(T) -> bool, j: int)
    requires
        !exists|i: int| is_first(s, p, i),
        0 <= j < s.len(),
    ensures
        !p(s[j]),
    decreases j,
{
    if p(s[j]) {
        if forall|k: int| 0 <= k < j ==> !p(#[trigger] s[k]) {
            assert(is_first(s, p, j));
        } else {
            let k = choose|k: int| 0 <= k < j && p(#[trigger] s[k]);
            lemma_no_first_no_item(s, p, k);
        }
    }
}

/// The place that `is_last` is the one that `last_index` names.
pub proof fn lemma_last_found<T>(s: Seq<T>, p: spec_fn(T) -> bool, i: int)
    requires
        is_last(s, p, i),
    ensures
        last_index(s, p) == Some(i),
{
    let k = choose|k: int| is_last(s, p, k);
    if k < i {
        assert(!p(s[i]));
    } else if i < k {
        assert(!p(s[k]));
    }
}

/// Where no item meets `p`, `last_index` names no place.
pub proof fn lemma_last_absent<T>(s: Seq<T>, p: spec_fn(T) -> bool)
    requires
        forall|j: int| 0 <= j < s.len() ==> !p(#[trigger] s[j]),
    ensures
        last_index(s, p) is None,
{
    if exists|i: int| is_last(s, p, i) {
        let k = choose|k: int| is_last(s, p, k);
        assert(!p(s[k]));
    }
}

} // verus!
