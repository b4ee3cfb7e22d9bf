//! Literal substring search: what an occurrence is, and the first or last
//! one in a window of the haystack.

use vstd::prelude::*;

verus! {

/// `needle` occurs in `hay` at offset `i`.
pub open spec fn matches_at<T>(hay: Seq<T>, needle: Seq<T>, i: int) -> bool {
    &&& 0 <= i
    &&& i + needle.len() <= hay.len()
    &&& hay.subrange(i, i + needle.len()) == needle
}

/// `i` is the leftmost occurrence of `needle` that starts at or after `from`.
pub open spec fn is_first_match<T>(hay: Seq<T>, needle: Seq<T>, from: int, i: int) -> bool {
    &&& from <= i
    &&& matches_at(hay, needle, i)
    &&& forall|k: int| from <= k < i ==> !matches_at(hay, needle, k)
}

/// `i` is the rightmost occurrence of `needle` that ends at or before `upto`.
pub open spec fn is_last_match<T>(hay: Seq<T>, needle: Seq<T>, upto: int, i: int) -> bool {
    &&& matches_at(hay, needle, i)
    &&& i + needle.len() <= upto
    &&& forall|k: int| i < k && k + needle.len() <= upto ==> !matches_at(hay, needle, k)
}

/// The leftmost occurrence of `needle` at or after `from`, if there is one.
pub open spec fn first_match<T>(hay: Seq<T>, needle: Seq<T>, from: int) -> Option<int> {
    if exists|i: int| is_first_match(hay, needle, from, i) {
        Some(choose|i: int| is_first_match(hay, needle, from, i))
    } else {
        None
    }
}

/// The rightmost occurrence of `needle` that ends at or before `upto`, if
/// there is one.
pub open spec fn last_match<T>(hay: Seq<T>, needle: Seq<T>, upto: int) -> Option<int> {
    if exists|i: int| is_last_match(hay, needle, upto, i) {
        Some(choose|i: int| is_last_match(hay, needle, upto, i))
    } else {
        None
    }
}

/// There is only one leftmost occurrence.
pub proof fn lemma_first_match_is<T>(hay: Seq<T>, needle: Seq<T>, from: int, i: int)
    requires
        is_first_match(hay, needle, from, i),
    ensures
        first_match(hay, needle, from) == Some(i),
{
    let j = choose|j: int| is_first_match(hay, needle, from, j);
    assert(is_first_match(hay, needle, from, j));
    if j < i {
        assert(!matches_at(hay, needle, j));
    }
    if i < j {
        assert(!matches_at(hay, needle, i));
    }
}

/// Without an occurrence at or after `from` there is no leftmost one.
pub proof fn lemma_first_match_none<T>(hay: Seq<T>, needle: Seq<T>, from: int)
    requires
        forall|k: int| from <= k ==> !matches_at(hay, needle, k),
    ensures
        first_match(hay, needle, from) is None,
{
}

/// What `first_match` returns is the leftmost occurrence.
pub proof fn lemma_first_match_found<T>(hay: Seq<T>, needle: Seq<T>, from: int)
    ensures
        first_match(hay, needle, from) matches Some(i) ==> is_first_match(hay, needle, from, i),
        first_match(hay, needle, from) is None ==> forall|k: int|
            from <= k ==> !matches_at(hay, needle, k),
{
    if first_match(hay, needle, from) is None {
        assert forall|k: int| from <= k implies !matches_at(hay, needle, k) by {
            if matches_at(hay, needle, k) {
                lemma_least_match(hay, needle, from, k);
            }
        }
    }
}

/// Where the needle occurs at or after `from`, it has a leftmost occurrence
/// there.
proof fn lemma_least_match<T>(hay: Seq<T>, needle: Seq<T>, from: int, i: int)
    requires
        from <= i,
        matches_at(hay, needle, i),
    ensures
        exists|least: int| is_first_match(hay, needle, from, least),
    decreases i - from,
{
    if exists|k: int| from <= k < i && matches_at(hay, needle, k) {
        let k = choose|k: int| from <= k < i && matches_at(hay, needle, k);
        lemma_least_match(hay, needle, from, k);
    } else {
        assert(is_first_match(hay, needle, from, i));
    }
}

/// There is only one rightmost occurrence.
pub proof fn lemma_last_match_is<T>(hay: Seq<T>, needle: Seq<T>, upto: int, i: int)
    requires
        is_last_match(hay, needle, upto, i),
    ensures
        last_match(hay, needle, upto) == Some(i),
{
    let j = choose|j: int| is_last_match(hay, needle, upto, j);
    assert(is_last_match(hay, needle, upto, j));
    if j < i {
        assert(!matches_at(hay, needle, i));
    }
    if i < j {
        assert(!matches_at(hay, needle, j));
    }
}

/// Without an occurrence that ends at or before `upto` there is no rightmost
/// one.
pub proof fn lemma_last_match_none<T>(hay: Seq<T>, needle: Seq<T>, upto: int)
    requires
        forall|k: int| k + needle.len() <= upto ==> !matches_at(hay, needle, k),
    ensures
        last_match(hay, needle, upto) is None,
{
}

/// An occurrence in a window of the haystack is an occurrence in the
/// haystack, shifted by the window's start.
pub proof fn lemma_matches_in_window<T>(hay: Seq<T>, needle: Seq<T>, lo: int, hi: int, i: int)
    requires
        0 <= lo <= hi <= hay.len(),
    ensures
        matches_at(hay.subrange(lo, hi), needle, i) <==> (matches_at(hay, needle, lo + i) && 0 <= i
            && lo + i + needle.len() <= hi),
{
    let window = hay.subrange(lo, hi);
    if 0 <= i && i + needle.len() <= window.len() {
        assert(window.subrange(i, i + needle.len()) =~= hay.subrange(
            lo + i,
            lo + i + needle.len(),
        ));
    }
}

/// `memchr::memmem::find`: the index of the first occurrence of `needle` in
/// `haystack`, or `None` when it does not occur. An empty needle occurs at 0.
pub assume_specification[ memchr::memmem::find ](haystack: &[u8], needle: &[u8]) -> (r: Option<
    usize,
>)
    ensures
        match r {
            Some(i) => is_first_match(haystack@, needle@, 0, i as int),
            None => forall|k: int| !matches_at(haystack@, needle@, k),
        },
;

/// `memchr::memmem::rfind`: the index of the last occurrence of `needle` in
/// `haystack`, or `None` when it does not occur. An empty needle occurs at
/// the haystack's end.
pub assume_specification[ memchr::memmem::rfind ](haystack: &[u8], needle: &[u8]) -> (r: Option<
    usize,
>)
    ensures
        match r {
            Some(i) => is_last_match(haystack@, needle@, haystack@.len() as int, i as int),
            None => forall|k: int| !matches_at(haystack@, needle@, k),
        },
;

/// Searches `hay` from offset `from` on for the first occurrence of `needle`.
pub fn find_from(hay: &[u8], needle: &[u8], from: usize) -> (r: Option<usize>)
    requires
        from <= hay@.len(),
    ensures
        match r {
            Some(i) => first_match(hay@, needle@, from as int) == Some(i as int),
            None => first_match(hay@, needle@, from as int) is None,
        },
        r matches Some(i) ==> is_first_match(hay@, needle@, from as int, i as int),
        r is None ==> forall|k: int| from <= k ==> !matches_at(hay@, needle@, k),
{
    let window = &hay[from..hay.len()];
    let found = memchr::memmem::find(window, needle);
    proof {
        assert forall|k: int|
            matches_at(window@, needle@, k) <==> (matches_at(hay@, needle@, from + k) && 0
                <= k) by {
            lemma_matches_in_window(hay@, needle@, from as int, hay@.len() as int, k);
        }
    }
    match found {
        Some(i) => {
            proof {
                assert forall|k: int| from <= k < from + i implies !matches_at(
                    hay@,
                    needle@,
                    k,
                ) by {
                    assert(!matches_at(window@, needle@, k - from));
                }
                lemma_first_match_is(hay@, needle@, from as int, from + i);
            }
            Some(from + i)
        },
        None => {
            proof {
                assert forall|k: int| from <= k implies !matches_at(hay@, needle@, k) by {
                    assert(!matches_at(window@, needle@, k - from));
                }
                lemma_first_match_none(hay@, needle@, from as int);
            }
            None
        },
    }
}

/// Searches the first `upto` bytes of `hay` for the last occurrence of
/// `needle`.
pub fn rfind_upto(hay: &[u8], needle: &[u8], upto: usize) -> (r: Option<usize>)
    requires
        upto <= hay@.len(),
    ensures
        match r {
            Some(i) => last_match(hay@, needle@, upto as int) == Some(i as int),
            None => last_match(hay@, needle@, upto as int) is None,
        },
        r matches Some(i) ==> is_last_match(hay@, needle@, upto as int, i as int),
        r is None ==> forall|k: int| k + needle@.len() <= upto ==> !matches_at(hay@, needle@, k),
{
    let window = &hay[0..upto];
    let found = memchr::memmem::rfind(window, needle);
    proof {
        assert forall|k: int|
            matches_at(window@, needle@, k) <==> (matches_at(hay@, needle@, k) && k
                + needle@.len() <= upto) by {
            lemma_matches_in_window(hay@, needle@, 0, upto as int, k);
        }
    }
    match found {
        Some(i) => {
            proof {
                lemma_last_match_is(hay@, needle@, upto as int, i as int);
            }
            Some(i)
        },
        None => {
            proof {
                lemma_last_match_none(hay@, needle@, upto as int);
            }
            None
        },
    }
}

} // verus!
