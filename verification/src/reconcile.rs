//! Hash reconciliation: merging every collected hash reference into one
//! minimal, lexicographically ordered set.
//!
//! All references (the pull request's current commits together with every
//! walked historical commit) are sorted lexicographically and scanned in
//! one adjacent pass; whenever a reference is a prefix of its successor,
//! the two denote the same commit and only the longer form is kept.
//!
//! The adjacent pass is correct because sorting places an abbreviation
//! directly before its extensions. A third, unrelated reference that
//! agrees with the abbreviation on its first characters could in theory
//! sort between the two; the adjacent pass does not collapse such a
//! separated pair. This is a known limitation of the design, inherited
//! from the sort-then-scan approach.

use vstd::prelude::*;

use crate::hashes::lemma_lex_between;
use crate::hashes::lemma_lex_le_antisymmetric;
use crate::hashes::lemma_lex_le_total;
use crate::hashes::lemma_lex_le_transitive;
use crate::hashes::lemma_prefix_lex_le;
use crate::hashes::lex_le;
use crate::hashes::str_is_prefix;
use crate::hashes::str_lex_le;
use crate::hashes::string_views;

verus! {

/// A sequence is sorted when every pair of positions is in `lex_le`
/// order.
pub open spec fn lex_sorted(s: Seq<Seq<char>>) -> bool {
    forall|i: int, j: int| 0 <= i < j < s.len() ==> #[trigger] lex_le(s[i], s[j])
}

/// No element of the sequence is a prefix of its immediate successor.
pub open spec fn no_adjacent_prefix(s: Seq<Seq<char>>) -> bool {
    forall|i: int, j: int|
        #![trigger s[i], s[j]]
        0 <= i && j == i + 1 && j < s.len() ==> !s[i].is_prefix_of(s[j])
}

/// Insertion of one element into its place in a sorted sequence.
pub open spec fn insert_sorted(x: Seq<char>, s: Seq<Seq<char>>) -> Seq<Seq<char>>
    decreases s.len(),
{
    if s.len() == 0 {
        seq![x]
    } else if lex_le(x, s[0]) {
        seq![x] + s
    } else {
        seq![s[0]] + insert_sorted(x, s.subrange(1, s.len() as int))
    }
}

/// Lexicographic sorting of a sequence of hash references, by repeated
/// insertion.
pub open spec fn lex_sort(s: Seq<Seq<char>>) -> Seq<Seq<char>>
    decreases s.len(),
{
    if s.len() == 0 {
        Seq::empty()
    } else {
        insert_sorted(s.last(), lex_sort(s.drop_last()))
    }
}

/// The adjacent pass over a sorted sequence: a reference that is a
/// prefix of its successor is dropped in favour of the longer form.
pub open spec fn collapse(s: Seq<Seq<char>>) -> Seq<Seq<char>>
    decreases s.len(),
{
    if s.len() <= 1 {
        s
    } else if s[0].is_prefix_of(s[1]) {
        collapse(s.subrange(1, s.len() as int))
    } else {
        seq![s[0]] + collapse(s.subrange(1, s.len() as int))
    }
}

/// What reconciliation returns: the sorted input with prefix-duplicates
/// collapsed into their longest form.
pub open spec fn reconcile_spec(s: Seq<Seq<char>>) -> Seq<Seq<char>> {
    collapse(lex_sort(s))
}

/// Inserting into a sorted sequence keeps it sorted, lengthens it by
/// one, and adds exactly the inserted element.
proof fn lemma_insert_sorted_ensures(x: Seq<char>, s: Seq<Seq<char>>)
    requires
        lex_sorted(s),
    ensures
        lex_sorted(insert_sorted(x, s)),
        insert_sorted(x, s).len() == s.len() + 1,
        forall|y: Seq<char>|
            #[trigger] insert_sorted(x, s).contains(y) <==> s.contains(y) || y == x,
    decreases s.len(),
{
    let r = insert_sorted(x, s);
    if s.len() == 0 {
        assert(r =~= seq![x]);
        assert(r.contains(x)) by {
            assert(r[0] == x);
        }
    } else if lex_le(x, s[0]) {
        assert(r =~= seq![x] + s);
        assert forall|i: int, j: int| 0 <= i < j < r.len() implies #[trigger] lex_le(
            r[i],
            r[j],
        ) by {
            if i == 0 {
                if j == 1 {
                } else {
                    lemma_lex_le_transitive(x, s[0], s[j - 1]);
                }
            }
        }
        assert forall|y: Seq<char>| #[trigger] r.contains(y) implies s.contains(y) || y == x by {
            let i = choose|i: int| 0 <= i < r.len() && r[i] == y;
            if i > 0 {
                assert(s[i - 1] == y);
            }
        }
        assert forall|y: Seq<char>| s.contains(y) || y == x implies #[trigger] r.contains(y) by {
            if y == x {
                assert(r[0] == y);
            } else {
                let i = choose|i: int| 0 <= i < s.len() && s[i] == y;
                assert(r[i + 1] == y);
            }
        }
    } else {
        let tail = s.subrange(1, s.len() as int);
        let rt = insert_sorted(x, tail);
        lemma_insert_sorted_ensures(x, tail);
        assert(r =~= seq![s[0]] + rt);
        lemma_lex_le_total(x, s[0]);
        assert forall|i: int, j: int| 0 <= i < j < r.len() implies #[trigger] lex_le(
            r[i],
            r[j],
        ) by {
            if i == 0 {
                assert(rt.contains(r[j])) by {
                    assert(rt[j - 1] == r[j]);
                }
                if r[j] == x {
                    assert(lex_le(s[0], x));
                } else {
                    assert(tail.contains(r[j]));
                    let k = choose|k: int| 0 <= k < tail.len() && tail[k] == r[j];
                    assert(s[k + 1] == tail[k]);
                    assert(lex_le(s[0], s[k + 1]));
                }
            } else {
                assert(lex_le(rt[i - 1], rt[j - 1]));
            }
        }
        assert forall|y: Seq<char>| #[trigger] r.contains(y) implies s.contains(y) || y == x by {
            let i = choose|i: int| 0 <= i < r.len() && r[i] == y;
            if i == 0 {
                assert(s[0] == y);
            } else {
                assert(rt[i - 1] == y);
                assert(rt.contains(y));
                if y != x {
                    assert(tail.contains(y));
                    let k = choose|k: int| 0 <= k < tail.len() && tail[k] == y;
                    assert(s[k + 1] == y);
                }
            }
        }
        assert forall|y: Seq<char>| s.contains(y) || y == x implies #[trigger] r.contains(y) by {
            if y == x || tail.contains(y) {
                assert(rt.contains(y));
                let k = choose|k: int| 0 <= k < rt.len() && rt[k] == y;
                assert(r[k + 1] == y);
            } else {
                let i = choose|i: int| 0 <= i < s.len() && s[i] == y;
                if i == 0 {
                    assert(r[0] == y);
                } else {
                    assert(tail[i - 1] == y);
                    assert(tail.contains(y));
                }
            }
        }
    }
}

/// Sorting produces a sorted sequence of the same length, holding
/// exactly the input's elements.
pub proof fn lemma_lex_sort_ensures(s: Seq<Seq<char>>)
    ensures
        lex_sorted(lex_sort(s)),
        lex_sort(s).len() == s.len(),
        forall|y: Seq<char>| #[trigger] lex_sort(s).contains(y) <==> s.contains(y),
    decreases s.len(),
{
    if s.len() == 0 {
    } else {
        let front = s.drop_last();
        lemma_lex_sort_ensures(front);
        lemma_insert_sorted_ensures(s.last(), lex_sort(front));
        assert forall|y: Seq<char>| #[trigger] lex_sort(s).contains(y) implies s.contains(y) by {
            if lex_sort(front).contains(y) {
                assert(front.contains(y));
                let i = choose|i: int| 0 <= i < front.len() && front[i] == y;
                assert(s[i] == y);
            } else {
                assert(s.last() == y);
                assert(s[s.len() - 1] == y);
            }
        }
        assert forall|y: Seq<char>| s.contains(y) implies #[trigger] lex_sort(s).contains(y) by {
            let i = choose|i: int| 0 <= i < s.len() && s[i] == y;
            if i < s.len() - 1 {
                assert(front[i] == y);
                assert(front.contains(y));
            } else {
                assert(y == s.last());
            }
        }
    }
}

/// The adjacent pass keeps only elements of its input, and keeps at
/// least one element of a non-empty input.
proof fn lemma_collapse_contains(s: Seq<Seq<char>>)
    ensures
        forall|y: Seq<char>| #[trigger] collapse(s).contains(y) ==> s.contains(y),
        s.len() > 0 ==> collapse(s).len() > 0,
    decreases s.len(),
{
    if s.len() <= 1 {
    } else {
        let tail = s.subrange(1, s.len() as int);
        lemma_collapse_contains(tail);
        assert forall|y: Seq<char>| #[trigger] collapse(s).contains(y) implies s.contains(y) by {
            if s[0].is_prefix_of(s[1]) {
                assert(collapse(tail).contains(y));
            } else {
                let r = collapse(s);
                let i = choose|i: int| 0 <= i < r.len() && r[i] == y;
                if i == 0 {
                    assert(s[0] == y);
                } else {
                    assert(collapse(tail)[i - 1] == y);
                    assert(collapse(tail).contains(y));
                }
            }
            if tail.contains(y) {
                let k = choose|k: int| 0 <= k < tail.len() && tail[k] == y;
                assert(s[k + 1] == y);
            }
        }
    }
}

/// On a sorted input the adjacent pass yields a sorted output in which
/// no element is a prefix of its successor.
proof fn lemma_collapse_clean(s: Seq<Seq<char>>)
    requires
        lex_sorted(s),
    ensures
        lex_sorted(collapse(s)),
        no_adjacent_prefix(collapse(s)),
    decreases s.len(),
{
    if s.len() <= 1 {
    } else {
        let tail = s.subrange(1, s.len() as int);
        let r = collapse(s);
        lemma_collapse_clean(tail);
        lemma_collapse_contains(tail);
        if s[0].is_prefix_of(s[1]) {
        } else {
            let rt = collapse(tail);
            assert(r =~= seq![s[0]] + rt);
            // s[0] precedes every element the pass kept from the tail.
            assert forall|j: int| 1 <= j < r.len() implies lex_le(s[0], r[j]) by {
                assert(rt[j - 1] == r[j]);
                assert(rt.contains(r[j]));
                assert(tail.contains(r[j]));
                let k = choose|k: int| 0 <= k < tail.len() && tail[k] == r[j];
                assert(s[k + 1] == tail[k]);
                assert(lex_le(s[0], s[k + 1]));
            }
            assert forall|i: int, j: int| 0 <= i < j < r.len() implies #[trigger] lex_le(
                r[i],
                r[j],
            ) by {
                if i > 0 {
                    assert(lex_le(rt[i - 1], rt[j - 1]));
                }
            }
            // Were s[0] a prefix of the first kept element, it would also
            // be a prefix of s[1], which lies between them.
            assert forall|i: int, j: int|
                #![trigger r[i], r[j]]
                0 <= i && j == i + 1 && j < r.len() implies !r[i].is_prefix_of(r[j]) by {
                if i == 0 {
                    if r[0].is_prefix_of(r[1]) {
                        assert(rt[0] == r[1]);
                        assert(rt.contains(r[1]));
                        assert(tail.contains(r[1]));
                        let k = choose|k: int| 0 <= k < tail.len() && tail[k] == r[1];
                        assert(s[k + 1] == tail[k]);
                        if k == 0 {
                            assert(s[0].is_prefix_of(s[1]));
                        } else {
                            assert(lex_le(s[1], s[k + 1]));
                            lemma_lex_between(s[0], s[1], s[k + 1]);
                        }
                        assert(false);
                    }
                } else {
                    let k = i - 1;
                    let l = j - 1;
                    assert(rt[k] == r[i]);
                    assert(rt[l] == r[j]);
                }
            }
        }
    }
}

/// The adjacent pass leaves a sequence alone when no element is a prefix
/// of its successor.
proof fn lemma_collapse_of_clean(s: Seq<Seq<char>>)
    requires
        no_adjacent_prefix(s),
    ensures
        collapse(s) == s,
    decreases s.len(),
{
    if s.len() <= 1 {
    } else {
        let tail = s.subrange(1, s.len() as int);
        assert forall|i: int, j: int|
            #![trigger tail[i], tail[j]]
            0 <= i && j == i + 1 && j < tail.len() implies !tail[i].is_prefix_of(tail[j]) by {
            assert(tail[i] == s[i + 1]);
            assert(tail[j] == s[j + 1]);
        }
        lemma_collapse_of_clean(tail);
        assert(!s[0].is_prefix_of(s[1]));
        assert(collapse(s) =~= s);
    }
}

/// Inserting an element no smaller than any element of a sorted
/// sequence appends it.
proof fn lemma_insert_sorted_at_end(x: Seq<char>, s: Seq<Seq<char>>)
    requires
        lex_sorted(s),
        forall|j: int| 0 <= j < s.len() ==> lex_le(#[trigger] s[j], x),
    ensures
        insert_sorted(x, s) == s.push(x),
    decreases s.len(),
{
    if s.len() == 0 {
        assert(insert_sorted(x, s) =~= s.push(x));
    } else if lex_le(x, s[0]) {
        lemma_lex_le_antisymmetric(x, s[0]);
        // Every element lies between s[0] == x and x, so all are equal.
        assert forall|j: int| 0 <= j < s.len() implies s[j] == x by {
            if j > 0 {
                lemma_lex_le_antisymmetric(s[j], x);
            }
        }
        assert(insert_sorted(x, s) =~= s.push(x));
    } else {
        let tail = s.subrange(1, s.len() as int);
        assert(forall|j: int| 0 <= j < tail.len() ==> tail[j] == s[j + 1]);
        lemma_insert_sorted_at_end(x, tail);
        assert(insert_sorted(x, s) =~= s.push(x));
    }
}

/// Sorting a sorted sequence changes nothing.
proof fn lemma_lex_sort_of_sorted(s: Seq<Seq<char>>)
    requires
        lex_sorted(s),
    ensures
        lex_sort(s) == s,
    decreases s.len(),
{
    if s.len() == 0 {
        assert(lex_sort(s) =~= s);
    } else {
        let front = s.drop_last();
        assert(forall|j: int| 0 <= j < front.len() ==> front[j] == s[j]);
        lemma_lex_sort_of_sorted(front);
        lemma_insert_sorted_at_end(s.last(), front);
        assert(lex_sort(s) =~= s);
    }
}

/// Sorting a one-element sequence changes nothing.
proof fn lemma_lex_sort_singleton(x: Seq<char>)
    ensures
        lex_sort(seq![x]) == seq![x],
{
    let e = Seq::<Seq<char>>::empty();
    let s = seq![x];
    assert(s.drop_last() =~= e);
    assert(lex_sort(e) == e);
    assert(s.last() == x);
    assert(lex_sort(s) == insert_sorted(x, lex_sort(s.drop_last())));
    assert(insert_sorted(x, e) =~= seq![x]);
}

/// Sorting a two-element sequence orders the pair.
proof fn lemma_lex_sort_pair(x: Seq<char>, y: Seq<char>)
    ensures
        lex_sort(seq![x, y]) == if lex_le(y, x) {
            seq![y, x]
        } else {
            seq![x, y]
        },
{
    let e = Seq::<Seq<char>>::empty();
    let s = seq![x, y];
    lemma_lex_sort_singleton(x);
    assert(s.drop_last() =~= seq![x]);
    assert(s.last() == y);
    assert(lex_sort(s) == insert_sorted(y, seq![x]));
    if lex_le(y, x) {
        assert(insert_sorted(y, seq![x]) == seq![y] + seq![x]);
        assert(seq![y] + seq![x] =~= seq![y, x]);
    } else {
        assert(seq![x].subrange(1, 1) =~= e);
        assert(insert_sorted(y, seq![x]) == seq![x] + insert_sorted(y, seq![x].subrange(1, 1)));
        assert(insert_sorted(y, e) =~= seq![y]);
        assert(seq![x] + seq![y] =~= seq![x, y]);
    }
}

/// The adjacent pass on a two-element sequence collapses the pair
/// exactly when the first is a prefix of the second.
proof fn lemma_collapse_pair(x: Seq<char>, y: Seq<char>)
    ensures
        collapse(seq![x, y]) == if x.is_prefix_of(y) {
            seq![y]
        } else {
            seq![x, y]
        },
{
    let s = seq![x, y];
    assert(s.subrange(1, 2) =~= seq![y]);
    assert(collapse(seq![y]) == seq![y]);
    if x.is_prefix_of(y) {
        assert(collapse(s) == collapse(s.subrange(1, 2)));
    } else {
        assert(collapse(s) == seq![x] + collapse(s.subrange(1, 2)));
        assert(seq![x] + seq![y] =~= s);
    }
}

/// Reconciliation retains exactly one representative of a pair of
/// references where one is a non-empty prefix of the other: the longer
/// of the two, in either input order.
pub proof fn lemma_reconcile_prefix_pair(a: Seq<char>, b: Seq<char>)
    requires
        a.len() > 0,
        a.is_prefix_of(b),
    ensures
        reconcile_spec(seq![a, b]) == seq![b],
        reconcile_spec(seq![b, a]) == seq![b],
{
    lemma_prefix_lex_le(a, b);
    lemma_lex_sort_pair(a, b);
    lemma_lex_sort_pair(b, a);
    lemma_collapse_pair(a, b);
    if lex_le(b, a) {
        lemma_lex_le_antisymmetric(a, b);
        assert(seq![b, a] =~= seq![a, b]);
    }
}

/// Insertion before the first position whose element is no smaller
/// splits the sequence there.
proof fn lemma_insert_sorted_at(x: Seq<char>, s: Seq<Seq<char>>, k: int)
    requires
        0 <= k <= s.len(),
        forall|j: int| 0 <= j < k ==> !lex_le(x, #[trigger] s[j]),
        k < s.len() ==> lex_le(x, s[k]),
    ensures
        insert_sorted(x, s) == s.subrange(0, k) + seq![x] + s.subrange(k, s.len() as int),
    decreases s.len(),
{
    if s.len() == 0 {
        assert(insert_sorted(x, s) =~= s.subrange(0, 0) + seq![x] + s.subrange(0, 0));
    } else if k == 0 {
        assert(insert_sorted(x, s) == seq![x] + s);
        assert(seq![x] + s =~= s.subrange(0, 0) + seq![x] + s.subrange(0, s.len() as int));
    } else {
        let tail = s.subrange(1, s.len() as int);
        assert(!lex_le(x, s[0]));
        assert forall|j: int| 0 <= j < k - 1 implies !lex_le(x, #[trigger] tail[j]) by {
            assert(tail[j] == s[j + 1]);
        }
        assert(k - 1 < tail.len() ==> lex_le(x, tail[k - 1])) by {
            if k < s.len() {
                assert(tail[k - 1] == s[k]);
            }
        }
        lemma_insert_sorted_at(x, tail, k - 1);
        assert(insert_sorted(x, s) == seq![s[0]] + (tail.subrange(0, k - 1) + seq![x]
            + tail.subrange(k - 1, tail.len() as int)));
        assert(seq![s[0]] + (tail.subrange(0, k - 1) + seq![x] + tail.subrange(
            k - 1,
            tail.len() as int,
        )) =~= s.subrange(0, k) + seq![x] + s.subrange(k, s.len() as int));
    }
}

/// The first position in the list whose element is no smaller than `x`,
/// or the length when every element is smaller.
fn insert_position(list: &Vec<String>, x: &String) -> (k: usize)
    ensures
        k <= list@.len(),
        forall|j: int| 0 <= j < k ==> !lex_le(x@, #[trigger] list@[j]@),
        k < list@.len() ==> lex_le(x@, list@[k as int]@),
{
    let mut k: usize = 0;
    loop
        invariant
            k <= list@.len(),
            forall|j: int| 0 <= j < k ==> !lex_le(x@, #[trigger] list@[j]@),
        decreases list@.len() - k,
    {
        if k == list.len() {
            return k;
        }
        if str_lex_le(x.as_str(), list[k].as_str()) {
            return k;
        }
        k = k + 1;
    }
}

/// Inserts a hash into a lexicographically sorted list, keeping it
/// sorted.
fn insert_hash(list: &mut Vec<String>, x: String)
    ensures
        string_views(final(list)@) == insert_sorted(x@, string_views(old(list)@)),
{
    let k = insert_position(list, &x);
    let ghost pre = list@;
    list.insert(k, x);
    proof {
        let views = string_views(pre);
        assert forall|j: int| 0 <= j < k implies !lex_le(x@, #[trigger] views[j]) by {
            assert(views[j] == pre[j]@);
        }
        lemma_insert_sorted_at(x@, views, k as int);
        assert(string_views(list@) =~= views.subrange(0, k as int) + seq![x@] + views.subrange(
            k as int,
            views.len() as int,
        ));
    }
}

/// Sorts hash references lexicographically.
pub fn sort_hashes(hashes: &Vec<String>) -> (r: Vec<String>)
    ensures
        string_views(r@) == lex_sort(string_views(hashes@)),
{
    let ghost views = string_views(hashes@);
    let mut out: Vec<String> = Vec::new();
    proof {
        assert(views.subrange(0, 0) =~= Seq::<Seq<char>>::empty());
        assert(string_views(out@) =~= Seq::<Seq<char>>::empty());
    }
    let mut i: usize = 0;
    while i < hashes.len()
        invariant
            i <= hashes@.len(),
            views == string_views(hashes@),
            string_views(out@) == lex_sort(views.subrange(0, i as int)),
        decreases hashes@.len() - i,
    {
        let x = hashes[i].clone();
        insert_hash(&mut out, x);
        proof {
            let pre = views.subrange(0, i as int);
            let pre1 = views.subrange(0, i + 1);
            assert(pre1.drop_last() =~= pre);
            assert(pre1.last() == views[i as int]);
            assert(lex_sort(pre1) == insert_sorted(views[i as int], lex_sort(pre)));
        }
        i = i + 1;
    }
    proof {
        assert(views.subrange(0, hashes@.len() as int) =~= views);
    }
    out
}

/// One adjacent pass over a sorted list: drops every reference that is a
/// prefix of its immediate successor.
pub fn dedup_prefixes(sorted: &Vec<String>) -> (r: Vec<String>)
    ensures
        string_views(r@) == collapse(string_views(sorted@)),
{
    let ghost views = string_views(sorted@);
    let n = sorted.len();
    let mut out: Vec<String> = Vec::new();
    proof {
        assert(views.subrange(0, n as int) =~= views);
        assert(string_views(out@) + collapse(views) =~= collapse(views));
    }
    let mut i: usize = 0;
    while i < n
        invariant
            i <= n,
            n == sorted@.len(),
            views == string_views(sorted@),
            collapse(views) == string_views(out@) + collapse(views.subrange(i as int, n as int)),
        decreases n - i,
    {
        let ghost rest = views.subrange(i as int, n as int);
        let ghost rest1 = views.subrange(i + 1, n as int);
        proof {
            assert(rest[0] == views[i as int]);
            assert(rest.subrange(1, rest.len() as int) =~= rest1);
        }
        let mut keep = true;
        if i + 1 < n {
            if str_is_prefix(sorted[i].as_str(), sorted[i + 1].as_str()) {
                keep = false;
            }
            proof {
                assert(rest[1] == views[i + 1]);
            }
        }
        if keep {
            let ghost pre_out = string_views(out@);
            out.push(sorted[i].clone());
            proof {
                assert(string_views(out@) =~= pre_out + seq![views[i as int]]);
                if i + 1 < n {
                    assert(collapse(rest) == seq![rest[0]] + collapse(rest1));
                } else {
                    assert(rest.len() == 1);
                    assert(rest1.len() == 0);
                    assert(collapse(rest) == rest);
                    assert(rest =~= seq![rest[0]] + collapse(rest1));
                }
                assert((pre_out + seq![views[i as int]]) + collapse(rest1) =~= pre_out + (seq![
                    views[i as int],
                ] + collapse(rest1)));
            }
        } else {
            proof {
                assert(collapse(rest) == collapse(rest1));
            }
        }
        i = i + 1;
    }
    proof {
        assert(views.subrange(n as int, n as int) =~= Seq::<Seq<char>>::empty());
        assert(string_views(out@) + collapse(Seq::<Seq<char>>::empty()) =~= string_views(out@));
    }
    out
}

/// Merges every collected hash reference (the current commit set and
/// all walked historical commits) into one deduplicated set, ordered
/// lexicographically: references where one is a prefix of the other
/// denote the same commit and only the longer form is retained.
pub fn reconcile(hashes: &Vec<String>) -> (r: Vec<String>)
    ensures
        string_views(r@) == reconcile_spec(string_views(hashes@)),
        lex_sorted(string_views(r@)),
        no_adjacent_prefix(string_views(r@)),
{
    let sorted = sort_hashes(hashes);
    let r = dedup_prefixes(&sorted);
    proof {
        lemma_lex_sort_ensures(string_views(hashes@));
        lemma_collapse_clean(lex_sort(string_views(hashes@)));
    }
    r
}

/// Reconciliation is idempotent: reconciling its own output changes
/// nothing.
pub proof fn lemma_reconcile_idempotent(s: Seq<Seq<char>>)
    ensures
        reconcile_spec(reconcile_spec(s)) == reconcile_spec(s),
{
    lemma_lex_sort_ensures(s);
    let sorted = lex_sort(s);
    lemma_collapse_clean(sorted);
    let c = collapse(sorted);
    lemma_lex_sort_of_sorted(c);
    lemma_collapse_of_clean(c);
}

} // verus!
