//! Facts about counting the rows of a table that meet a condition.

use vstd::prelude::*;

verus! {

/// Where a second condition holds only of rows that pass the first,
/// filtering by the first does not change what the second selects.
pub proof fn lemma_filter_within<A>(s: Seq<A>, keep: spec_fn(A) -> bool, p: spec_fn(A) -> bool)
    requires
        forall|x: A| #[trigger] p(x) ==> keep(x),
    ensures
        s.filter(keep).filter(p) == s.filter(p),
    decreases s.len(),
{
    reveal(Seq::filter);
    if s.len() > 0 {
        let head = s.drop_last();
        lemma_filter_within(head, keep, p);
        assert(head.push(s.last()) =~= s);
        head.lemma_filter_push(s.last(), keep);
        head.lemma_filter_push(s.last(), p);
        if keep(s.last()) {
            head.filter(keep).lemma_filter_push(s.last(), p);
        }
    }
}

/// Where a second condition holds of no row that passes the first, nothing
/// that the first lets through meets the second.
pub proof fn lemma_filter_apart<A>(s: Seq<A>, keep: spec_fn(A) -> bool, p: spec_fn(A) -> bool)
    requires
        forall|x: A| #[trigger] p(x) ==> !keep(x),
    ensures
        s.filter(keep).filter(p).len() == 0,
    decreases s.len(),
{
    reveal(Seq::filter);
    if s.len() > 0 {
        let head = s.drop_last();
        lemma_filter_apart(head, keep, p);
        assert(head.push(s.last()) =~= s);
        head.lemma_filter_push(s.last(), keep);
        if keep(s.last()) {
            head.filter(keep).lemma_filter_push(s.last(), p);
        }
    }
}

/// Rows are counted exactly where some row meets the condition.
pub proof fn lemma_counted_row<A>(s: Seq<A>, p: spec_fn(A) -> bool)
    ensures
        s.filter(p).len() > 0 <==> exists|i: int| 0 <= i < s.len() && p(#[trigger] s[i]),
    decreases s.len(),
{
    reveal(Seq::filter);
    if s.len() > 0 {
        let head = s.drop_last();
        lemma_counted_row(head, p);
        if exists|i: int| 0 <= i < head.len() && p(#[trigger] head[i]) {
            let i = choose|i: int| 0 <= i < head.len() && p(#[trigger] head[i]);
            assert(p(s[i]));
        }
        if p(s.last()) {
            assert(p(s[s.len() - 1]));
        }
        if exists|i: int| 0 <= i < s.len() && p(#[trigger] s[i]) {
            let i = choose|i: int| 0 <= i < s.len() && p(#[trigger] s[i]);
            if i < head.len() {
                assert(p(head[i]));
            }
        }
    }
}

/// Replacing a row by one that meets the condition exactly when the old row
/// did leaves the count as it was.
pub proof fn lemma_count_after_update<A>(s: Seq<A>, i: int, row: A, p: spec_fn(A) -> bool)
    requires
        0 <= i < s.len(),
        p(row) == p(s[i]),
    ensures
        s.update(i, row).filter(p).len() == s.filter(p).len(),
    decreases s.len(),
{
    let head = s.drop_last();
    assert(head.push(s.last()) =~= s);
    head.lemma_filter_len_push(p, s.last());
    if i == s.len() - 1 {
        assert(s.update(i, row) =~= head.push(row));
        head.lemma_filter_len_push(p, row);
    } else {
        lemma_count_after_update(head, i, row, p);
        assert(s.update(i, row) =~= head.update(i, row).push(s.last()));
        head.update(i, row).lemma_filter_len_push(p, s.last());
    }
}

/// Two rows at different places that both meet the condition are counted twice.
pub proof fn lemma_two_counted<A>(s: Seq<A>, p: spec_fn(A) -> bool, a: int, b: int)
    requires
        0 <= a < b < s.len(),
        p(s[a]),
        p(s[b]),
    ensures
        s.filter(p).len() >= 2,
    decreases s.len(),
{
    let head = s.drop_last();
    assert(head.push(s.last()) =~= s);
    head.lemma_filter_len_push(p, s.last());
    if b == s.len() - 1 {
        lemma_counted_row(head, p);
        assert(p(head[a]));
    } else {
        lemma_two_counted(head, p, a, b);
    }
}

} // verus!
