//! The order of siblings: entries sorted by name, byte by byte.

use vstd::prelude::*;
use crate::tree::{name_keys, DirectoryEntry};

verus! {

/// Whether `a` comes before `b` in lexicographic byte order.
pub open spec fn lex_lt(a: Seq<u8>, b: Seq<u8>) -> bool
    decreases a.len(),
{
    if b.len() == 0 {
        false
    } else if a.len() == 0 {
        true
    } else if a[0] != b[0] {
        a[0] < b[0]
    } else {
        lex_lt(a.drop_first(), b.drop_first())
    }
}

/// Whether the entry at position `i` of a listing comes before the one at
/// `j`: by name, and among equal names by position.
pub open spec fn precedes(keys: Seq<Seq<u8>>, i: int, j: int) -> bool {
    lex_lt(keys[i], keys[j]) || (keys[i] == keys[j] && i < j)
}

/// The merge of two runs of positions: the smaller head first, the left
/// one where the names are equal.
pub open spec fn merge(keys: Seq<Seq<u8>>, left: Seq<usize>, right: Seq<usize>) -> Seq<usize>
    decreases left.len() + right.len(),
{
    if left.len() == 0 {
        right
    } else if right.len() == 0 {
        left
    } else if lex_lt(keys[right[0] as int], keys[left[0] as int]) {
        seq![right[0]] + merge(keys, left, right.drop_first())
    } else {
        seq![left[0]] + merge(keys, left.drop_first(), right)
    }
}

/// A run of positions sorted by merging its sorted halves.
pub open spec fn sort(keys: Seq<Seq<u8>>, items: Seq<usize>) -> Seq<usize>
    decreases items.len(),
{
    if items.len() <= 1 {
        items
    } else {
        let mid = items.len() / 2;
        merge(keys, sort(keys, items.take(mid as int)), sort(keys, items.skip(mid as int)))
    }
}

/// The positions `0, 1, ..` below `n`.
pub open spec fn positions(n: nat) -> Seq<usize> {
    Seq::new(n, |i: int| i as usize)
}

/// The positions of a listing's entries in the order of their names.
pub open spec fn name_order(entries: Seq<DirectoryEntry>) -> Seq<usize> {
    sort(name_keys(entries), positions(entries.len()))
}

/// All positions in `items` are below `n`.
pub open spec fn within(items: Seq<usize>, n: nat) -> bool {
    forall|k: int| 0 <= k < items.len() ==> (#[trigger] items[k] as nat) < n
}

/// Compares two byte strings lexicographically.
pub fn bytes_lt(a: &[u8], b: &[u8]) -> (lt: bool)
    ensures
        lt == lex_lt(a@, b@),
{
    let mut i: usize = 0;
    proof {
        assert(a@.skip(0) =~= a@);
        assert(b@.skip(0) =~= b@);
    }
    while i < a.len() && i < b.len()
        invariant
            i <= a.len(),
            i <= b.len(),
            lex_lt(a@, b@) == lex_lt(a@.skip(i as int), b@.skip(i as int)),
        decreases a.len() - i,
    {
        if a[i] != b[i] {
            return a[i] < b[i];
        }
        proof {
            assert(a@.skip(i as int).drop_first() =~= a@.skip(i + 1));
            assert(b@.skip(i as int).drop_first() =~= b@.skip(i + 1));
        }
        i += 1;
    }
    i < b.len()
}

/// Whether the name of the entry at `i` comes before the name of the one at `j`.
fn name_lt(entries: &Vec<DirectoryEntry>, i: usize, j: usize) -> (lt: bool)
    requires
        i < entries.len(),
        j < entries.len(),
    ensures
        lt == lex_lt(name_keys(entries@)[i as int], name_keys(entries@)[j as int]),
{
    bytes_lt(entries[i].name.as_str().as_bytes(), entries[j].name.as_str().as_bytes())
}

fn merge_runs(entries: &Vec<DirectoryEntry>, left: &Vec<usize>, right: &Vec<usize>) -> (out: Vec<
    usize,
>)
    requires
        within(left@, entries.len() as nat),
        within(right@, entries.len() as nat),
    ensures
        out@ == merge(name_keys(entries@), left@, right@),
        within(out@, entries.len() as nat),
{
    let ghost keys = name_keys(entries@);
    let mut out: Vec<usize> = Vec::new();
    let mut i: usize = 0;
    let mut j: usize = 0;
    proof {
        assert(left@.skip(0) =~= left@);
        assert(right@.skip(0) =~= right@);
        assert(out@ + merge(keys, left@, right@) =~= merge(keys, left@, right@));
    }
    while i < left.len() || j < right.len()
        invariant
            i <= left.len(),
            j <= right.len(),
            keys == name_keys(entries@),
            within(left@, entries.len() as nat),
            within(right@, entries.len() as nat),
            within(out@, entries.len() as nat),
            out@ + merge(keys, left@.skip(i as int), right@.skip(j as int)) == merge(
                keys,
                left@,
                right@,
            ),
        decreases (left.len() - i) + (right.len() - j),
    {
        let ghost l = left@.skip(i as int);
        let ghost r = right@.skip(j as int);
        if i == left.len() {
            proof {
                assert(out@.push(right[j as int]) + merge(keys, l, r.drop_first()) =~= out@
                    + merge(keys, l, r));
                assert(r.drop_first() =~= right@.skip(j + 1));
            }
            out.push(right[j]);
            j += 1;
        } else if j == right.len() {
            proof {
                assert(merge(keys, l.drop_first(), r) == l.drop_first());
                assert(out@.push(left[i as int]) + merge(keys, l.drop_first(), r) =~= out@
                    + merge(keys, l, r));
                assert(l.drop_first() =~= left@.skip(i + 1));
            }
            out.push(left[i]);
            i += 1;
        } else if name_lt(entries, right[j], left[i]) {
            proof {
                assert(out@.push(right[j as int]) + merge(keys, l, r.drop_first()) =~= out@
                    + merge(keys, l, r));
                assert(r.drop_first() =~= right@.skip(j + 1));
            }
            out.push(right[j]);
            j += 1;
        } else {
            proof {
                assert(out@.push(left[i as int]) + merge(keys, l.drop_first(), r) =~= out@
                    + merge(keys, l, r));
                assert(l.drop_first() =~= left@.skip(i + 1));
            }
            out.push(left[i]);
            i += 1;
        }
    }
    proof {
        assert(out@ + merge(keys, left@.skip(i as int), right@.skip(j as int)) =~= out@);
    }
    out
}

fn sort_run(entries: &Vec<DirectoryEntry>, items: &Vec<usize>, lo: usize, hi: usize) -> (out: Vec<
    usize,
>)
    requires
        lo <= hi <= items.len(),
        within(items@, entries.len() as nat),
    ensures
        out@ == sort(name_keys(entries@), items@.subrange(lo as int, hi as int)),
        within(out@, entries.len() as nat),
    decreases hi - lo,
{
    let ghost run = items@.subrange(lo as int, hi as int);
    if hi - lo <= 1 {
        let mut out: Vec<usize> = Vec::new();
        if lo < hi {
            out.push(items[lo]);
        }
        proof {
            assert(out@ =~= run);
        }
        out
    } else {
        let mid = lo + (hi - lo) / 2;
        let left = sort_run(entries, items, lo, mid);
        let right = sort_run(entries, items, mid, hi);
        proof {
            assert(run.take((run.len() / 2) as int) =~= items@.subrange(lo as int, mid as int));
            assert(run.skip((run.len() / 2) as int) =~= items@.subrange(mid as int, hi as int));
        }
        merge_runs(entries, &left, &right)
    }
}

/// The positions of the entries in the order of their names; entries with
/// equal names keep the order of the listing.
pub fn sorted_positions(entries: &Vec<DirectoryEntry>) -> (order: Vec<usize>)
    ensures
        order@ == name_order(entries@),
        order.len() == entries.len(),
        within(order@, entries.len() as nat),
        ordered(name_keys(entries@), order@),
{
    let mut items: Vec<usize> = Vec::new();
    let mut i: usize = 0;
    while i < entries.len()
        invariant
            i <= entries.len(),
            items@ == positions(i as nat),
        decreases entries.len() - i,
    {
        items.push(i);
        proof {
            assert(items@ =~= positions((i + 1) as nat));
        }
        i += 1;
    }
    let order = sort_run(entries, &items, 0, items.len());
    proof {
        assert(items@.subrange(0, items.len() as int) =~= items@);
        lemma_name_order(entries@);
    }
    order
}

/// No byte string comes before itself.
pub proof fn lemma_lex_irreflexive(a: Seq<u8>)
    ensures
        !lex_lt(a, a),
    decreases a.len(),
{
    if a.len() > 0 {
        lemma_lex_irreflexive(a.drop_first());
    }
}

/// The byte order is transitive.
pub proof fn lemma_lex_transitive(a: Seq<u8>, b: Seq<u8>, c: Seq<u8>)
    requires
        lex_lt(a, b),
        lex_lt(b, c),
    ensures
        lex_lt(a, c),
    decreases a.len(),
{
    if a.len() > 0 && a[0] == b[0] && b[0] == c[0] {
        lemma_lex_transitive(a.drop_first(), b.drop_first(), c.drop_first());
    }
}

/// Of two different byte strings, one comes before the other.
pub proof fn lemma_lex_total(a: Seq<u8>, b: Seq<u8>)
    ensures
        lex_lt(a, b) || lex_lt(b, a) || a == b,
    decreases a.len(),
{
    if a.len() > 0 && b.len() > 0 && a[0] == b[0] {
        lemma_lex_total(a.drop_first(), b.drop_first());
        if a.drop_first() == b.drop_first() {
            assert(a =~= seq![a[0]] + a.drop_first());
            assert(b =~= seq![b[0]] + b.drop_first());
        }
    } else if a.len() == 0 && b.len() == 0 {
        assert(a =~= b);
    }
}

/// A run is ordered if each of its positions precedes all that follow it.
pub open spec fn ordered(keys: Seq<Seq<u8>>, run: Seq<usize>) -> bool {
    forall|a: int, b: int|
        0 <= a < b < run.len() ==> precedes(keys, #[trigger] run[a] as int, #[trigger] run[b] as int)
}

/// Every position of `left` that has the name of a position of `right` is
/// the smaller of the two.
pub open spec fn ties_favor(keys: Seq<Seq<u8>>, left: Seq<usize>, right: Seq<usize>) -> bool {
    forall|a: int, b: int|
        0 <= a < left.len() && 0 <= b < right.len() && keys[#[trigger] left[a] as int]
            == keys[#[trigger] right[b] as int] ==> left[a] < right[b]
}

/// Precedence is transitive.
pub proof fn lemma_precedes_transitive(keys: Seq<Seq<u8>>, i: int, j: int, k: int)
    requires
        precedes(keys, i, j),
        precedes(keys, j, k),
    ensures
        precedes(keys, i, k),
{
    if lex_lt(keys[i], keys[j]) && lex_lt(keys[j], keys[k]) {
        lemma_lex_transitive(keys[i], keys[j], keys[k]);
    }
}

/// What a merge holds: each position of the two runs, and no other.
pub proof fn lemma_merge_holds(keys: Seq<Seq<u8>>, left: Seq<usize>, right: Seq<usize>)
    ensures
        merge(keys, left, right).len() == left.len() + right.len(),
        forall|x: usize|
            #![trigger merge(keys, left, right).contains(x)]
            #![trigger left.contains(x)]
            #![trigger right.contains(x)]
            merge(keys, left, right).contains(x) <==> left.contains(x) || right.contains(x),
    decreases left.len() + right.len(),
{
    let merged = merge(keys, left, right);
    if left.len() == 0 || right.len() == 0 {
    } else if lex_lt(keys[right[0] as int], keys[left[0] as int]) {
        let rest = merge(keys, left, right.drop_first());
        lemma_merge_holds(keys, left, right.drop_first());
        assert forall|x: usize| merged.contains(x) <==> left.contains(x) || right.contains(
            x,
        ) by {
            lemma_contains_with_head(right[0], rest, x);
            lemma_contains_with_head(right[0], right.drop_first(), x);
            assert(right =~= seq![right[0]] + right.drop_first());
        }
    } else {
        let rest = merge(keys, left.drop_first(), right);
        lemma_merge_holds(keys, left.drop_first(), right);
        assert forall|x: usize| merged.contains(x) <==> left.contains(x) || right.contains(
            x,
        ) by {
            lemma_contains_with_head(left[0], rest, x);
            lemma_contains_with_head(left[0], left.drop_first(), x);
            assert(left =~= seq![left[0]] + left.drop_first());
        }
    }
}

proof fn lemma_contains_with_head(head: usize, rest: Seq<usize>, x: usize)
    ensures
        (seq![head] + rest).contains(x) <==> x == head || rest.contains(x),
{
    let all = seq![head] + rest;
    if all.contains(x) {
        let i = choose|i: int| 0 <= i < all.len() && all[i] == x;
        if i > 0 {
            assert(rest[i - 1] == x);
        }
    }
    if x == head {
        assert(all[0] == x);
    }
    if rest.contains(x) {
        let i = choose|i: int| 0 <= i < rest.len() && rest[i] == x;
        assert(all[i + 1] == x);
    }
}

/// The merge of two ordered runs is ordered, where ties between the runs
/// go to the left one.
pub proof fn lemma_merge_ordered(keys: Seq<Seq<u8>>, left: Seq<usize>, right: Seq<usize>)
    requires
        ordered(keys, left),
        ordered(keys, right),
        ties_favor(keys, left, right),
    ensures
        ordered(keys, merge(keys, left, right)),
    decreases left.len() + right.len(),
{
    let merged = merge(keys, left, right);
    if left.len() == 0 || right.len() == 0 {
    } else {
        let l = left[0];
        let r = right[0];
        let takes_right = lex_lt(keys[r as int], keys[l as int]);
        let head = if takes_right {
            r
        } else {
            l
        };
        let rest = if takes_right {
            merge(keys, left, right.drop_first())
        } else {
            merge(keys, left.drop_first(), right)
        };
        assert(merged == seq![head] + rest);
        if takes_right {
            assert(ordered(keys, right.drop_first())) by {
                assert forall|a: int, b: int| 0 <= a < b < right.drop_first().len() implies precedes(
                    keys,
                    #[trigger] right.drop_first()[a] as int,
                    #[trigger] right.drop_first()[b] as int,
                ) by {
                    assert(precedes(keys, right[a + 1] as int, right[b + 1] as int));
                }
            }
            assert(ties_favor(keys, left, right.drop_first())) by {
                assert forall|a: int, b: int|
                    0 <= a < left.len() && 0 <= b < right.drop_first().len() && keys[#[trigger] left[a] as int]
                        == keys[#[trigger] right.drop_first()[b] as int] implies left[a]
                    < right.drop_first()[b] by {
                    assert(right.drop_first()[b] == right[b + 1]);
                }
            }
            lemma_merge_ordered(keys, left, right.drop_first());
            lemma_merge_holds(keys, left, right.drop_first());
        } else {
            assert(ordered(keys, left.drop_first())) by {
                assert forall|a: int, b: int| 0 <= a < b < left.drop_first().len() implies precedes(
                    keys,
                    #[trigger] left.drop_first()[a] as int,
                    #[trigger] left.drop_first()[b] as int,
                ) by {
                    assert(precedes(keys, left[a + 1] as int, left[b + 1] as int));
                }
            }
            assert(ties_favor(keys, left.drop_first(), right)) by {
                assert forall|a: int, b: int|
                    0 <= a < left.drop_first().len() && 0 <= b < right.len() && keys[#[trigger] left.drop_first()[a] as int]
                        == keys[#[trigger] right[b] as int] implies left.drop_first()[a]
                    < right[b] by {
                    assert(left.drop_first()[a] == left[a + 1]);
                }
            }
            lemma_merge_ordered(keys, left.drop_first(), right);
            lemma_merge_holds(keys, left.drop_first(), right);
        }
        // the head precedes the other run's first position, hence all that follow
        assert(takes_right ==> precedes(keys, r as int, l as int));
        assert(!takes_right ==> precedes(keys, l as int, r as int)) by {
            if !takes_right {
                lemma_lex_total(keys[l as int], keys[r as int]);
                if keys[l as int] == keys[r as int] {
                    assert(left[0] < right[0]);
                }
            }
        }
        assert forall|a: int, b: int| 0 <= a < b < merged.len() implies precedes(
            keys,
            #[trigger] merged[a] as int,
            #[trigger] merged[b] as int,
        ) by {
            if a > 0 {
                assert(merged[a] == rest[a - 1] && merged[b] == rest[b - 1]);
            } else {
                let x = merged[b];
                assert(rest[b - 1] == x);
                assert(rest.contains(x));
                if takes_right {
                    if left.contains(x) {
                        let i = choose|i: int| 0 <= i < left.len() && left[i] == x;
                        if i > 0 {
                            assert(precedes(keys, left[0] as int, left[i] as int));
                            lemma_precedes_transitive(keys, r as int, l as int, x as int);
                        }
                    } else {
                        let j = choose|j: int|
                            0 <= j < right.drop_first().len() && right.drop_first()[j] == x;
                        assert(precedes(keys, right[0] as int, right[j + 1] as int));
                    }
                } else {
                    if left.drop_first().contains(x) {
                        let i = choose|i: int|
                            0 <= i < left.drop_first().len() && left.drop_first()[i] == x;
                        assert(precedes(keys, left[0] as int, left[i + 1] as int));
                    } else {
                        let j = choose|j: int| 0 <= j < right.len() && right[j] == x;
                        if j > 0 {
                            assert(precedes(keys, right[0] as int, right[j] as int));
                            lemma_precedes_transitive(keys, l as int, r as int, x as int);
                        }
                    }
                }
            }
        }
    }
}

/// The positions of a run grow from left to right.
pub open spec fn increasing(run: Seq<usize>) -> bool {
    forall|a: int, b: int| 0 <= a < b < run.len() ==> #[trigger] run[a] < #[trigger] run[b]
}

/// A sorted run holds the positions of the run it was made from, and is
/// ordered where that run was increasing.
pub proof fn lemma_sort(keys: Seq<Seq<u8>>, items: Seq<usize>)
    ensures
        sort(keys, items).len() == items.len(),
        forall|x: usize|
            #![trigger sort(keys, items).contains(x)]
            #![trigger items.contains(x)]
            sort(keys, items).contains(x) <==> items.contains(x),
        increasing(items) ==> ordered(keys, sort(keys, items)),
    decreases items.len(),
{
    if items.len() > 1 {
        let mid = (items.len() / 2) as int;
        let left = items.take(mid);
        let right = items.skip(mid);
        lemma_sort(keys, left);
        lemma_sort(keys, right);
        lemma_merge_holds(keys, sort(keys, left), sort(keys, right));
        assert forall|x: usize| sort(keys, items).contains(x) <==> items.contains(x) by {
            if items.contains(x) {
                let i = choose|i: int| 0 <= i < items.len() && items[i] == x;
                if i < mid {
                    assert(left[i] == x);
                } else {
                    assert(right[i - mid] == x);
                }
            }
            if left.contains(x) {
                let i = choose|i: int| 0 <= i < left.len() && left[i] == x;
                assert(items[i] == x);
            }
            if right.contains(x) {
                let i = choose|i: int| 0 <= i < right.len() && right[i] == x;
                assert(items[i + mid] == x);
            }
        }
        if increasing(items) {
            assert(increasing(left));
            assert(increasing(right)) by {
                assert forall|a: int, b: int| 0 <= a < b < right.len() implies #[trigger] right[a]
                    < #[trigger] right[b] by {
                    assert(items[a + mid] < items[b + mid]);
                }
            }
            let sorted_left = sort(keys, left);
            let sorted_right = sort(keys, right);
            assert(ties_favor(keys, sorted_left, sorted_right)) by {
                assert forall|a: int, b: int|
                    0 <= a < sorted_left.len() && 0 <= b < sorted_right.len() implies #[trigger] sorted_left[a]
                    < #[trigger] sorted_right[b] by {
                    let x = sorted_left[a];
                    let y = sorted_right[b];
                    assert(sorted_left.contains(x));
                    assert(sorted_right.contains(y));
                    let i = choose|i: int| 0 <= i < left.len() && left[i] == x;
                    let j = choose|j: int| 0 <= j < right.len() && right[j] == y;
                    assert(items[i] < items[j + mid]);
                }
            }
            lemma_merge_ordered(keys, sorted_left, sorted_right);
        }
    }
}

/// The order of names holds each position of the listing once, and each
/// position in it precedes all that follow: names do not decrease, and
/// entries with one name keep the order of the listing.
pub proof fn lemma_name_order(entries: Seq<DirectoryEntry>)
    requires
        entries.len() <= usize::MAX,
    ensures
        name_order(entries).len() == entries.len(),
        within(name_order(entries), entries.len()),
        forall|p: usize| (p as nat) < entries.len() ==> name_order(entries).contains(p),
        ordered(name_keys(entries), name_order(entries)),
        forall|a: int, b: int|
            0 <= a < b < entries.len() ==> #[trigger] name_order(entries)[a]
                != #[trigger] name_order(entries)[b],
{
    let keys = name_keys(entries);
    let all = positions(entries.len());
    let order = name_order(entries);
    lemma_sort(keys, all);
    assert(increasing(all));
    assert forall|k: int| 0 <= k < order.len() implies (#[trigger] order[k] as nat)
        < entries.len() by {
        assert(order.contains(order[k]));
        let i = choose|i: int| 0 <= i < all.len() && all[i] == order[k];
    }
    assert forall|p: usize| (p as nat) < entries.len() implies order.contains(p) by {
        assert(all[p as int] == p);
    }
    assert forall|a: int, b: int| 0 <= a < b < entries.len() implies #[trigger] order[a]
        != #[trigger] order[b] by {
        assert(precedes(keys, order[a] as int, order[b] as int));
        lemma_lex_irreflexive(keys[order[a] as int]);
    }
}

} // verus!
