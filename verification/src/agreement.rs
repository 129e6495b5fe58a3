//! Where the two runs agree: an index-accelerated pass that suppresses
//! duplicates and whose index reports every box walks the pairs of an
//! exhaustive pass.

use vstd::prelude::*;
use crate::indexed_model::{partners, row, trace};
use crate::pairwise_model::{first_pair, next_pair};

verus! {

/// The answer of an index that reports each of `n` boxes, in index order.
pub open spec fn everyone(n: nat) -> Seq<u32> {
    Seq::new(n, |k: int| k as u32)
}

/// The answers of the first `m` queries of a pass in which every query
/// reports every box.
pub open spec fn total_answers(n: nat, m: nat) -> Seq<Seq<u32>> {
    Seq::new(m, |i: int| everyone(n))
}

/// The boxes above `subject` among the first `m`, in index order.
pub open spec fn above(subject: int, m: nat) -> Seq<int> {
    if m <= subject + 1 {
        Seq::empty()
    } else {
        Seq::new((m - 1 - subject) as nat, |k: int| subject + 1 + k)
    }
}

/// With duplicates suppressed, the partners drawn from the first `m`
/// boxes are the boxes above the subject.
pub proof fn partners_of_everyone(subject: int, n: nat, m: nat)
    requires
        0 <= subject,
        m <= n <= 0x1_0000_0000,
    ensures
        partners(subject, everyone(n).take(m as int), true) == above(subject, m),
    decreases m,
{
    let found = everyone(n).take(m as int);
    if m == 0 {
        assert(partners(subject, found, true) =~= above(subject, m));
    } else {
        partners_of_everyone(subject, n, (m - 1) as nat);
        assert(found.drop_last() =~= everyone(n).take(m - 1));
        assert(found.last() == (m - 1) as u32);
        assert(partners(subject, found, true) =~= above(subject, m));
    }
}

/// Whether each pair of `t` but the last is followed by its successor in
/// the index order of the pairs of `n` boxes.
#[verifier::opaque]
spec fn chained(n: nat, t: Seq<(int, int)>) -> bool {
    forall|k: int| 0 <= k < t.len() - 1 ==> next_pair(n, (#[trigger] t[k]).0, t[k].1) == Some(t[k + 1])
}

/// Two chained runs of pairs, the second beginning where the first
/// leaves off, make one chained run.
proof fn chain_append(n: nat, a: Seq<(int, int)>, b: Seq<(int, int)>)
    requires
        chained(n, a),
        chained(n, b),
        a.len() > 0 && b.len() > 0 ==> next_pair(n, a.last().0, a.last().1) == Some(b[0]),
    ensures
        chained(n, a + b),
{
    reveal(chained);
    let t = a + b;
    assert forall|k: int| 0 <= k < t.len() - 1 implies next_pair(n, (#[trigger] t[k]).0, t[k].1)
        == Some(t[k + 1]) by {
        if k + 1 < a.len() {
            assert(t[k] == a[k] && t[k + 1] == a[k + 1]);
        } else if k < a.len() {
            assert(t[k] == a.last() && t[k + 1] == b[0]);
        } else {
            assert(t[k] == b[k - a.len()] && t[k + 1] == b[k - a.len() + 1]);
        }
    }
}

/// The pairs that a subject forms with the boxes above it are chained.
proof fn row_above_is_chained(n: nat, subject: int)
    requires
        0 <= subject,
    ensures
        chained(n, row(subject, above(subject, n))),
{
    reveal(chained);
}

/// Adding a subject to such a pass adds the pairs that it forms with the
/// boxes above it.
proof fn total_trace_grows(n: nat, m: nat)
    requires
        0 < m <= n <= 0x1_0000_0000,
    ensures
        trace(total_answers(n, m), true) == trace(total_answers(n, (m - 1) as nat), true) + row(
            m - 1,
            above(m - 1, n),
        ),
{
    let answers = total_answers(n, m);
    assert(answers.drop_last() =~= total_answers(n, (m - 1) as nat));
    assert(answers.last() == everyone(n));
    partners_of_everyone(m - 1, n, n);
    assert(everyone(n).take(n as int) =~= everyone(n));
}

/// The pairs of the first `m` subjects of such a pass: they begin at the
/// first pair, each is followed by its successor in index order, and they
/// end with the last pair of the last subject that has a partner.
proof fn total_trace_walks_pairs(n: nat, m: nat)
    requires
        m <= n <= 0x1_0000_0000,
    ensures
        ({
            let t = trace(total_answers(n, m), true);
            &&& (t.len() == 0 <==> m == 0 || n <= 1)
            &&& t.len() > 0 ==> Some(t[0]) == first_pair(n)
            &&& t.len() > 0 ==> t.last() == (if m == n { n - 2 } else { m - 1 }, n - 1)
            &&& chained(n, t)
        }),
    decreases m,
{
    if m == 0 {
        reveal(chained);
    } else {
        let subject = m - 1;
        total_trace_walks_pairs(n, (m - 1) as nat);
        total_trace_grows(n, m);
        row_above_is_chained(n, subject);
        let before = trace(total_answers(n, (m - 1) as nat), true);
        let added = row(subject, above(subject, n));
        let t = before + added;
        assert(added.len() == (if m < n { n - m } else { 0 }));
        if added.len() > 0 {
            assert(added[0] == (subject, subject + 1));
            assert(added.last() == (subject, n - 1));
            assert(t.last() == added.last());
        } else {
            assert(t =~= before);
        }
        if before.len() > 0 {
            assert(t[0] == before[0]);
        } else if added.len() > 0 {
            assert(t[0] == added[0]);
        }
        chain_append(n, before, added);
    }
}

/// An index-accelerated pass that suppresses duplicates and in which every
/// query reports every box examines the pairs of an exhaustive pass, each
/// once and in the same order: it begins at the first pair, goes from each
/// pair to its successor, and ends after the last.
pub proof fn deduplicated_total_pass_is_exhaustive(n: nat, k: int)
    requires
        n <= 0x1_0000_0000,
    ensures
        ({
            let t = trace(total_answers(n, n), true);
            &&& (t.len() == 0 <==> n <= 1)
            &&& t.len() > 0 ==> Some(t[0]) == first_pair(n)
            &&& 0 <= k < t.len() - 1 ==> next_pair(n, t[k].0, t[k].1) == Some(t[k + 1])
            &&& t.len() > 0 ==> next_pair(n, t.last().0, t.last().1) is None
        }),
{
    total_trace_walks_pairs(n, n);
    reveal(chained);
}

} // verus!
