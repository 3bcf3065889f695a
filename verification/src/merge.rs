//! The order of candidates, and a list of them in that order without repetitions.
use crate::completion::{candidate_views, Candidate, CandidateView};
use crate::text::{chars_of, has_prefix};
use vstd::prelude::*;

verus! {

/// `a` stands before `b`: texts are ordered by their first difference, character by
/// character in the order of their code points, and a text stands before its extensions.
pub open spec fn less(a: Seq<char>, b: Seq<char>) -> bool
    decreases a.len(),
{
    if b.len() == 0 {
        false
    } else if a.len() == 0 {
        true
    } else {
        a[0] < b[0] || (a[0] == b[0] && less(a.skip(1), b.skip(1)))
    }
}

/// Of two texts one stands before the other, or they are equal, and only one of the three.
pub proof fn law_less_is_total(a: Seq<char>, b: Seq<char>)
    ensures
        a == b || less(a, b) || less(b, a),
        !(less(a, b) && less(b, a)),
        !less(a, a),
    decreases a.len(),
{
    if a.len() == 0 {
        if b.len() == 0 {
            assert(a =~= b);
        }
    } else {
        law_less_is_total(a.skip(1), a.skip(1));
        if b.len() > 0 {
            law_less_is_total(a.skip(1), b.skip(1));
            if a[0] == b[0] && a.skip(1) == b.skip(1) {
                assert(a =~= seq![a[0]] + a.skip(1));
                assert(b =~= seq![b[0]] + b.skip(1));
            }
        }
    }
}

/// What stands before a text stands before everything that the text stands before.
pub proof fn law_less_is_transitive(a: Seq<char>, b: Seq<char>, c: Seq<char>)
    requires
        less(a, b),
        less(b, c),
    ensures
        less(a, c),
    decreases a.len(),
{
    if a.len() > 0 && a[0] == b[0] && b[0] == c[0] {
        law_less_is_transitive(a.skip(1), b.skip(1), c.skip(1));
    }
}

/// Whether `a` stands before `b`.
fn is_less(a: &str, b: &str) -> (r: bool)
    ensures
        r == less(a@, b@),
{
    let x = chars_of(a);
    let y = chars_of(b);
    let mut i: usize = 0;
    assert(x@.skip(0) =~= a@);
    assert(y@.skip(0) =~= b@);
    while i < x.len() && i < y.len()
        invariant
            i <= x@.len(),
            i <= y@.len(),
            less(x@.skip(i as int), y@.skip(i as int)) == less(a@, b@),
        decreases x@.len() - i,
    {
        if x[i] != y[i] {
            return x[i] < y[i];
        }
        assert(x@.skip(i as int).skip(1) =~= x@.skip(i + 1));
        assert(y@.skip(i as int).skip(1) =~= y@.skip(i + 1));
        i = i + 1;
    }
    i < y.len()
}

/// The candidates stand in the order of their replacements, no two of which are the same.
pub open spec fn sorted(v: Seq<CandidateView>) -> bool {
    forall|i: int, j: int|
        0 <= i < j < v.len() ==> less(
            (#[trigger] v[i]).replacement,
            (#[trigger] v[j]).replacement,
        )
}

/// `c` is the first candidate of the list with its replacement.
pub open spec fn is_first(list: Seq<CandidateView>, c: CandidateView) -> bool {
    exists|j: int|
        {
            &&& 0 <= j < list.len()
            &&& #[trigger] list[j] == c
            &&& forall|k: int|
                0 <= k < j ==> (#[trigger] list[k]).replacement != c.replacement
        }
}

/// Some candidate of the list has this replacement.
pub open spec fn offers(list: Seq<CandidateView>, replacement: Seq<char>) -> bool {
    exists|i: int| 0 <= i < list.len() && (#[trigger] list[i]).replacement == replacement
}

/// `merged` is `list` in order and without repetitions: of the candidates with the same
/// replacement the first one is kept.
pub open spec fn is_merged(list: Seq<CandidateView>, merged: Seq<CandidateView>) -> bool {
    &&& sorted(merged)
    &&& forall|i: int| 0 <= i < merged.len() ==> is_first(list, #[trigger] merged[i])
    &&& forall|j: int| 0 <= j < list.len() ==> offers(merged, (#[trigger] list[j]).replacement)
}

/// How many candidates of a sorted list stand before `replacement`.
fn position(list: &Vec<Candidate>, replacement: &str) -> (p: usize)
    requires
        sorted(candidate_views(list@)),
    ensures
        p <= list@.len(),
        forall|i: int|
            0 <= i < p ==> less(
                (#[trigger] candidate_views(list@)[i]).replacement,
                replacement@,
            ),
        forall|i: int|
            p <= i < list@.len() ==> !less(
                (#[trigger] candidate_views(list@)[i]).replacement,
                replacement@,
            ),
{
    let ghost views = candidate_views(list@);
    let mut lo: usize = 0;
    let mut hi: usize = list.len();
    while lo < hi
        invariant
            lo <= hi <= list@.len(),
            views == candidate_views(list@),
            sorted(views),
            forall|i: int| 0 <= i < lo ==> less((#[trigger] views[i]).replacement, replacement@),
            forall|i: int|
                hi <= i < views.len() ==> !less((#[trigger] views[i]).replacement, replacement@),
        decreases hi - lo,
    {
        let mid: usize = lo + (hi - lo) / 2;
        assert(views[mid as int].replacement == list@[mid as int].replacement@);
        if is_less(list[mid].replacement.as_str(), replacement) {
            assert forall|i: int| 0 <= i < mid + 1 implies less(
                (#[trigger] views[i]).replacement,
                replacement@,
            ) by {
                if i < mid {
                    law_less_is_transitive(
                        views[i].replacement,
                        views[mid as int].replacement,
                        replacement@,
                    );
                }
            }
            lo = mid + 1;
        } else {
            assert forall|i: int| mid <= i < views.len() implies !less(
                (#[trigger] views[i]).replacement,
                replacement@,
            ) by {
                if i > mid && less(views[i].replacement, replacement@) {
                    law_less_is_transitive(
                        views[mid as int].replacement,
                        views[i].replacement,
                        replacement@,
                    );
                }
            }
            hi = mid;
        }
    }
    lo
}

/// One more candidate of the list is merged: where its replacement is offered already
/// nothing changes.
proof fn lemma_merge_known(
    list: Seq<CandidateView>,
    merged: Seq<CandidateView>,
    c: CandidateView,
)
    requires
        is_merged(list, merged),
        offers(merged, c.replacement),
    ensures
        is_merged(list.push(c), merged),
{
    let next = list.push(c);
    assert forall|i: int| 0 <= i < merged.len() implies is_first(next, #[trigger] merged[i]) by {
        assert(is_first(list, merged[i]));
        lemma_first_stays(list, merged[i], c);
    }
    assert forall|j: int| 0 <= j < next.len() implies offers(
        merged,
        (#[trigger] next[j]).replacement,
    ) by {
        if j < list.len() {
            assert(next[j] == list[j]);
        }
    }
}

proof fn lemma_first_stays(list: Seq<CandidateView>, first: CandidateView, c: CandidateView)
    requires
        is_first(list, first),
    ensures
        is_first(list.push(c), first),
{
    let next = list.push(c);
    let j = choose|j: int|
        {
            &&& 0 <= j < list.len()
            &&& #[trigger] list[j] == first
            &&& forall|k: int|
                0 <= k < j ==> (#[trigger] list[k]).replacement != first.replacement
        };
    assert(next[j] == first);
    assert forall|k: int| 0 <= k < j implies (#[trigger] next[k]).replacement
        != first.replacement by {
        assert(next[k] == list[k]);
    }
}

/// One more candidate of the list is merged: where its replacement is not offered yet it
/// stands where it belongs.
proof fn lemma_merge_new(
    list: Seq<CandidateView>,
    merged: Seq<CandidateView>,
    c: CandidateView,
    p: int,
)
    requires
        is_merged(list, merged),
        0 <= p <= merged.len(),
        forall|i: int| 0 <= i < p ==> less((#[trigger] merged[i]).replacement, c.replacement),
        forall|i: int|
            p <= i < merged.len() ==> less(c.replacement, (#[trigger] merged[i]).replacement),
    ensures
        is_merged(list.push(c), merged.insert(p, c)),
{
    let next = list.push(c);
    let after = merged.insert(p, c);
    assert forall|i: int, j: int| 0 <= i < j < after.len() implies less(
        (#[trigger] after[i]).replacement,
        (#[trigger] after[j]).replacement,
    ) by {
        let a = if i < p {
            i
        } else {
            i - 1
        };
        let b = if j < p {
            j
        } else {
            j - 1
        };
        if i != p {
            assert(after[i] == merged[a]);
        }
        if j != p {
            assert(after[j] == merged[b]);
        }
    }
    assert forall|k: int| 0 <= k < list.len() implies (#[trigger] list[k]).replacement
        != c.replacement by {
        assert(offers(merged, list[k].replacement));
        let i = choose|i: int|
            0 <= i < merged.len() && (#[trigger] merged[i]).replacement == list[k].replacement;
        law_less_is_total(merged[i].replacement, c.replacement);
        assert(i < p || p <= i);
    }
    assert forall|i: int| 0 <= i < after.len() implies is_first(next, #[trigger] after[i]) by {
        if i == p {
            assert(next[list.len() as int] == c);
            assert forall|k: int| 0 <= k < list.len() implies (#[trigger] next[k]).replacement
                != c.replacement by {
                assert(next[k] == list[k]);
            }
        } else {
            let a = if i < p {
                i
            } else {
                i - 1
            };
            assert(after[i] == merged[a]);
            assert(is_first(list, merged[a]));
            lemma_first_stays(list, merged[a], c);
        }
    }
    assert forall|j: int| 0 <= j < next.len() implies offers(
        after,
        (#[trigger] next[j]).replacement,
    ) by {
        if j < list.len() {
            assert(next[j] == list[j]);
            assert(offers(merged, list[j].replacement));
            let i = choose|i: int|
                0 <= i < merged.len() && (#[trigger] merged[i]).replacement
                    == list[j].replacement;
            if i < p {
                assert(after[i] == merged[i]);
            } else {
                assert(after[i + 1] == merged[i]);
            }
        } else {
            assert(after[p] == c);
        }
    }
}

/// The candidates in order and without repetitions.
pub fn merge(list: Vec<Candidate>) -> (merged: Vec<Candidate>)
    ensures
        is_merged(candidate_views(list@), candidate_views(merged@)),
{
    let ghost all = candidate_views(list@);
    let mut merged: Vec<Candidate> = Vec::new();
    let mut i: usize = 0;
    assert(is_merged(all.take(0), candidate_views(merged@)));
    while i < list.len()
        invariant
            i <= list@.len(),
            all == candidate_views(list@),
            is_merged(all.take(i as int), candidate_views(merged@)),
        decreases list@.len() - i,
    {
        let ghost before = candidate_views(merged@);
        let ghost c = all[i as int];
        assert(c.replacement == list@[i as int].replacement@);
        assert(all.take(i + 1) =~= all.take(i as int).push(c));
        let p: usize = position(&merged, list[i].replacement.as_str());
        let known = if p < merged.len() {
            assert(before[p as int].replacement == merged@[p as int].replacement@);
            str::eq(merged[p].replacement.as_str(), list[i].replacement.as_str())
        } else {
            false
        };
        if known {
            proof {
                assert(before[p as int].replacement == c.replacement);
                lemma_merge_known(all.take(i as int), before, c);
            }
        } else {
            let copy = Candidate {
                display: list[i].display.clone(),
                replacement: list[i].replacement.clone(),
            };
            assert(copy@ == c);
            merged.insert(p, copy);
            assert(candidate_views(merged@) =~= before.insert(p as int, c));
            proof {
                assert forall|k: int| p <= k < before.len() implies less(
                    c.replacement,
                    (#[trigger] before[k]).replacement,
                ) by {
                    law_less_is_total(before[p as int].replacement, c.replacement);
                    if k > p {
                        law_less_is_transitive(
                            c.replacement,
                            before[p as int].replacement,
                            before[k].replacement,
                        );
                    }
                }
                lemma_merge_new(all.take(i as int), before, c, p as int);
            }
        }
        i = i + 1;
    }
    assert(all.take(i as int) =~= all);
    merged
}

/// There is only one merged list.
pub proof fn law_merged_list_is_unique(
    list: Seq<CandidateView>,
    a: Seq<CandidateView>,
    b: Seq<CandidateView>,
)
    requires
        is_merged(list, a),
        is_merged(list, b),
    ensures
        a == b,
{
    lemma_merged_prefix(list, a, b, a.len() as int);
    lemma_merged_prefix(list, b, a, b.len() as int);
    assert(a =~= b);
}

/// The first `k` candidates of one merged list are those of the other.
proof fn lemma_merged_prefix(
    list: Seq<CandidateView>,
    a: Seq<CandidateView>,
    b: Seq<CandidateView>,
    k: int,
)
    requires
        is_merged(list, a),
        is_merged(list, b),
        0 <= k <= a.len(),
    ensures
        k <= b.len(),
        forall|i: int| 0 <= i < k ==> a[i] == b[i],
    decreases k,
{
    if k > 0 {
        let n = k - 1;
        lemma_merged_prefix(list, a, b, n);
        // The next candidate of `a` stands in `b`, at `n` or later.
        let m = lemma_same_candidate(list, a, b, n);
        if m < n {
            assert(a[m] == b[m]);
            law_less_is_total(a[m].replacement, a[n].replacement);
        }
        // So does the candidate of `b` at `n` in `a`.
        let l = lemma_same_candidate(list, b, a, n);
        if l < n {
            assert(a[l] == b[l]);
            law_less_is_total(b[l].replacement, b[n].replacement);
        }
        if m > n {
            // `b[n]` stands before `b[m] == a[n]`, but in `a` it stands at `l >= n`.
            assert(less(b[n].replacement, b[m].replacement));
            if l > n {
                assert(less(a[n].replacement, a[l].replacement));
            }
            law_less_is_total(a[n].replacement, b[n].replacement);
        }
    }
}

/// A candidate of one merged list stands in the other.
proof fn lemma_same_candidate(
    list: Seq<CandidateView>,
    a: Seq<CandidateView>,
    b: Seq<CandidateView>,
    n: int,
) -> (m: int)
    requires
        is_merged(list, a),
        is_merged(list, b),
        0 <= n < a.len(),
    ensures
        0 <= m < b.len(),
        b[m] == a[n],
{
    assert(is_first(list, a[n]));
    let j = choose|j: int|
        {
            &&& 0 <= j < list.len()
            &&& #[trigger] list[j] == a[n]
            &&& forall|k: int| 0 <= k < j ==> (#[trigger] list[k]).replacement != a[n].replacement
        };
    assert(offers(b, list[j].replacement));
    let m = choose|m: int|
        0 <= m < b.len() && (#[trigger] b[m]).replacement == list[j].replacement;
    assert(is_first(list, b[m]));
    let i = choose|i: int|
        {
            &&& 0 <= i < list.len()
            &&& #[trigger] list[i] == b[m]
            &&& forall|k: int| 0 <= k < i ==> (#[trigger] list[k]).replacement != b[m].replacement
        };
    if i < j {
        assert(list[i].replacement != a[n].replacement);
    } else if j < i {
        assert(list[j].replacement != b[m].replacement);
    }
    m
}

/// Where every candidate begins with a word, so does every candidate of the merged list.
pub proof fn law_merged_list_extends_the_word(
    list: Seq<CandidateView>,
    merged: Seq<CandidateView>,
    word: Seq<char>,
)
    requires
        is_merged(list, merged),
        forall|i: int| 0 <= i < list.len() ==> has_prefix((#[trigger] list[i]).replacement, word),
    ensures
        forall|i: int|
            0 <= i < merged.len() ==> has_prefix((#[trigger] merged[i]).replacement, word),
{
    assert forall|i: int| 0 <= i < merged.len() implies has_prefix(
        (#[trigger] merged[i]).replacement,
        word,
    ) by {
        assert(is_first(list, merged[i]));
        let j = choose|j: int|
            {
                &&& 0 <= j < list.len()
                &&& #[trigger] list[j] == merged[i]
                &&& forall|k: int|
                    0 <= k < j ==> (#[trigger] list[k]).replacement != merged[i].replacement
            };
        assert(has_prefix(list[j].replacement, word));
    }
}

/// The order is that of the first characters in which two texts differ, by their code points, and
/// a text stands before its extensions.
pub proof fn law_order(common: Seq<char>, x: char, y: char, a: Seq<char>, b: Seq<char>)
    requires
        x < y,
    ensures
        less(common + seq![x] + a, common + seq![y] + b),
        less(common, common + seq![x] + a),
        !less(common, common),
    decreases common.len(),
{
    let s = common + seq![x] + a;
    let t = common + seq![y] + b;
    if common.len() > 0 {
        let c = common.skip(1);
        law_order(c, x, y, a, b);
        assert(s[0] == common[0] && t[0] == common[0]);
        assert(s.skip(1) =~= c + seq![x] + a);
        assert(t.skip(1) =~= c + seq![y] + b);
    } else {
        assert(s[0] == x && t[0] == y);
    }
}

/// The candidate stands in the list, and none with its replacement stands before it.
pub open spec fn found_first(list: Seq<CandidateView>, c: CandidateView) -> bool {
    exists|j: int|
        0 <= j < list.len() && #[trigger] list[j] == c && !replaced_in(list.take(j), c.replacement)
}

/// Some candidate of the list has this replacement.
pub open spec fn replaced_in(list: Seq<CandidateView>, replacement: Seq<char>) -> bool {
    list.map_values(|c: CandidateView| c.replacement).contains(replacement)
}

/// In a merged list the replacements ascend strictly, every candidate stands in the list that was
/// merged with none of the same replacement before it, and no replacement is lost. Any list like
/// that is the merged list.
pub proof fn law_merged_list(list: Seq<CandidateView>, merged: Seq<CandidateView>)
    ensures
        is_merged(list, merged) <==> {
            &&& forall|i: int, j: int|
                0 <= i < j < merged.len() ==> less(
                    (#[trigger] merged[i]).replacement,
                    (#[trigger] merged[j]).replacement,
                )
            &&& forall|i: int| 0 <= i < merged.len() ==> found_first(list, #[trigger] merged[i])
            &&& forall|j: int|
                0 <= j < list.len() ==> replaced_in(merged, (#[trigger] list[j]).replacement)
        },
{
    assert forall|c: CandidateView| is_first(list, c) == found_first(list, c) by {
        lemma_found_first(list, c);
    }
    assert forall|r: Seq<char>| offers(merged, r) == replaced_in(merged, r) by {
        lemma_replaced_in(merged, r);
    }
    if is_merged(list, merged) {
        assert forall|i: int| 0 <= i < merged.len() implies found_first(
            list,
            #[trigger] merged[i],
        ) by {
            assert(is_first(list, merged[i]));
        }
        assert forall|j: int| 0 <= j < list.len() implies replaced_in(
            merged,
            (#[trigger] list[j]).replacement,
        ) by {
            assert(offers(merged, list[j].replacement));
        }
    } else if sorted(merged) {
        if forall|i: int| 0 <= i < merged.len() ==> is_first(list, #[trigger] merged[i]) {
            let j = choose|j: int|
                0 <= j < list.len() && !offers(merged, (#[trigger] list[j]).replacement);
            assert(!replaced_in(merged, list[j].replacement));
        } else {
            let i = choose|i: int| 0 <= i < merged.len() && !is_first(list, #[trigger] merged[i]);
            assert(!found_first(list, merged[i]));
        }
    }
}

proof fn lemma_replaced_in(list: Seq<CandidateView>, r: Seq<char>)
    ensures
        offers(list, r) == replaced_in(list, r),
{
    let all = list.map_values(|c: CandidateView| c.replacement);
    if offers(list, r) {
        let i = choose|i: int| 0 <= i < list.len() && (#[trigger] list[i]).replacement == r;
        assert(all[i] == r);
    }
    if replaced_in(list, r) {
        let i = choose|i: int| 0 <= i < all.len() && all[i] == r;
        assert(list[i].replacement == r);
    }
}

proof fn lemma_found_first(list: Seq<CandidateView>, c: CandidateView)
    ensures
        is_first(list, c) == found_first(list, c),
{
    assert forall|j: int| 0 <= j < list.len() implies (replaced_in(
        #[trigger] list.take(j),
        c.replacement,
    ) <==> exists|k: int| 0 <= k < j && (#[trigger] list[k]).replacement == c.replacement) by {
        let front = list.take(j);
        lemma_replaced_in(front, c.replacement);
        if offers(front, c.replacement) {
            let k = choose|k: int|
                0 <= k < front.len() && (#[trigger] front[k]).replacement == c.replacement;
            assert(list[k] == front[k]);
        }
        if exists|k: int| 0 <= k < j && (#[trigger] list[k]).replacement == c.replacement {
            let k = choose|k: int| 0 <= k < j && (#[trigger] list[k]).replacement == c.replacement;
            assert(front[k] == list[k]);
        }
    }
    if is_first(list, c) {
        let j = choose|j: int|
            {
                &&& 0 <= j < list.len()
                &&& #[trigger] list[j] == c
                &&& forall|k: int|
                    0 <= k < j ==> (#[trigger] list[k]).replacement != c.replacement
            };
        assert(!replaced_in(list.take(j), c.replacement));
        assert(list[j] == c);
    }
    if found_first(list, c) {
        let j = choose|j: int|
            0 <= j < list.len() && #[trigger] list[j] == c && !replaced_in(
                list.take(j),
                c.replacement,
            );
        assert(list[j] == c);
        assert forall|k: int| 0 <= k < j implies (#[trigger] list[k]).replacement
            != c.replacement by {}
    }
}

} // verus!
