//! The results of a test session: which of several results of a test counts, and in which order
//! results are reported.

use crate::modmap::NumFunUid;
use crate::ordering::law_sorting_keeps_the_items;
use crate::ordering::stable_sort;
use crate::ordering::stably_sorted;
use crate::ordering::Ranked;
use crate::stages::test_jobs::TestJobFailure;
use crate::stages::test_protocol::LogResult;
use crate::stages::test_protocol::ResultModel;
use crate::stages::test_protocol::StatusModel;
use crate::stages::test_protocol::TestStatus;
use crate::stages::testing::results_model;
use crate::text::same_text;
use vstd::prelude::*;

verus! {

/// How much a status counts: what the test itself said counts more than what was seen from
/// outside.
pub open spec fn status_priority(status: StatusModel) -> nat {
    match status {
        StatusModel::Pass | StatusModel::Exception => 100,
        StatusModel::Timeout => 95,
        StatusModel::GlobalTimeout => 90,
        StatusModel::Exit(_) | StatusModel::Signal(_) => 85,
        StatusModel::Fatal(_) => 75,
        StatusModel::Spurious(_) => 70,
    }
}

/// How much a status counts.
pub fn status_prio(st: &TestStatus) -> (prio: u8)
    ensures
        prio == status_priority(st@),
{
    match st {
        TestStatus::Pass | TestStatus::Exception => 100,
        TestStatus::Timeout => 95,
        TestStatus::GlobalTimeout => 90,
        TestStatus::Exit(_) | TestStatus::Signal(_) => 85,
        TestStatus::Fatal(_) => 75,
        TestStatus::Spurious(_) => 70,
    }
}

/// The results are of the same test.
pub open spec fn same_test(a: ResultModel, b: ResultModel) -> bool {
    a.call == b.call && a.pkt == b.pkt && a.thread_lid == b.thread_lid && a.uid == b.uid
}

/// The last one of those that count most.
pub open spec fn decisive(group: Seq<ResultModel>) -> ResultModel
    decreases group.len(),
{
    if group.len() <= 1 {
        group[0]
    } else {
        let best = decisive(group.drop_last());
        if status_priority(group.last().status) >= status_priority(best.status) {
            group.last()
        } else {
            best
        }
    }
}

/// The results of the same test as `result`.
pub open spec fn results_of_test(results: Seq<ResultModel>, result: ResultModel) -> Seq<
    ResultModel,
> {
    results.filter(|r: ResultModel| same_test(r, result))
}

/// The results of other tests than that of `result`.
pub open spec fn results_of_others(results: Seq<ResultModel>, result: ResultModel) -> Seq<
    ResultModel,
> {
    results.filter(|r: ResultModel| !same_test(r, result))
}

/// One result for each test, in the order in which the tests first occur.
pub open spec fn merged(results: Seq<ResultModel>) -> Seq<ResultModel>
    decreases results.len(),
{
    if results.len() == 0 {
        Seq::empty()
    } else {
        proof {
            lemma_others_are_fewer(results);
        }
        seq![decisive(results_of_test(results, results[0]))] + merged(
            results_of_others(results, results[0]),
        )
    }
}

/// There are fewer results of other tests than that of the first one.
pub proof fn lemma_others_are_fewer(results: Seq<ResultModel>)
    requires
        results.len() > 0,
    ensures
        results_of_others(results, results[0]).len() < results.len(),
{
    reveal_with_fuel(Seq::filter, 2);
    let pred = |r: ResultModel| !same_test(r, results[0]);
    let rest = results.subrange(1, results.len() as int);
    assert(results =~= seq![results[0]] + rest);
    Seq::filter_distributes_over_add(seq![results[0]], rest, pred);
    rest.lemma_filter_len(pred);
    assert(seq![results[0]].filter(pred) =~= Seq::<ResultModel>::empty()) by {
        assert(seq![results[0]].drop_last() =~= Seq::<ResultModel>::empty());
    }
}

fn is_same_test(a: &LogResult, b: &LogResult) -> (r: bool)
    ensures
        r == same_test(a@, b@),
{
    a.call == b.call && a.pkt == b.pkt && a.thread_lid == b.thread_lid && a.uid == b.uid
}

/// handles cases where 2 results are produced (one local, one asynchronous, especially in the MT-support mode)
/// we create a precedence of statuses, where the priority is thus:
/// Pass/Exception
/// Timeout
/// GlobalTimeout
/// Exit/Signal
/// Fatal
/// Spurious
#[verifier::loop_isolation(false)]
pub fn merge_results(results: Vec<LogResult>) -> (r: Vec<LogResult>)
    ensures
        results_model(r@) == merged(results_model(results@)),
{
    let ghost goal = merged(results_model(results@));
    let mut pending = results;
    let mut done: Vec<LogResult> = Vec::new();
    proof {
        assert(results_model(done@) + goal =~= goal);
    }
    while pending.len() > 0
        invariant
            goal == results_model(done@) + merged(results_model(pending@)),
        decreases pending@.len(),
    {
        let ghost all = results_model(pending@);
        let ghost first = all[0];
        let ghost same = |r: ResultModel| same_test(r, first);
        let ghost other = |r: ResultModel| !same_test(r, first);
        let mut best: usize = 0;
        let mut rest: Vec<LogResult> = Vec::new();
        let mut i: usize = 1;
        proof {
            reveal_with_fuel(Seq::filter, 2);
            let one = all.subrange(0, 1);
            assert(one.drop_last() =~= Seq::<ResultModel>::empty());
            assert(one.last() == first);
            assert(one.filter(same) =~= seq![first]);
            assert(results_model(rest@) =~= one.filter(other));
        }
        while i < pending.len()
            invariant
                1 <= i <= pending@.len(),
                best < i,
                all == results_model(pending@),
                all.subrange(0, i as int).filter(same).len() > 0,
                all[best as int] == decisive(all.subrange(0, i as int).filter(same)),
                results_model(rest@) == all.subrange(0, i as int).filter(other),
                rest@.len() < i,
            decreases pending@.len() - i,
        {
            proof {
                reveal(Seq::filter);
                let upto = all.subrange(0, i + 1);
                assert(upto.drop_last() =~= all.subrange(0, i as int));
                assert(upto.last() == all[i as int]);
                assert(upto.filter(same).drop_last() =~= all.subrange(0, i as int).filter(same)
                    || !same(all[i as int]));
            }
            if is_same_test(&pending[i], &pending[0]) {
                if status_prio(&pending[i].status) >= status_prio(&pending[best].status) {
                    best = i;
                }
            } else {
                let ghost before = rest@;
                rest.push(pending[i].clone());
                proof {
                    assert(results_model(rest@) =~= results_model(before).push(all[i as int]));
                }
            }
            i += 1;
        }
        let ghost before = done@;
        done.push(pending[best].clone());
        proof {
            assert(all.subrange(0, i as int) =~= all);
            assert(results_model(done@) =~= results_model(before).push(all[best as int]));
            assert(merged(all) == seq![all[best as int]] + merged(results_model(rest@)));
            assert(results_model(before) + (seq![all[best as int]] + merged(results_model(rest@)))
                =~= results_model(done@) + merged(results_model(rest@)));
        }
        pending = rest;
    }
    proof {
        assert(results_model(pending@) =~= Seq::<ResultModel>::empty());
        assert(results_model(done@) + Seq::<ResultModel>::empty() =~= results_model(done@));
    }
    done
}

proof fn lemma_decisive(group: Seq<ResultModel>)
    requires
        group.len() > 0,
    ensures
        group.contains(decisive(group)),
        forall|i: int|
            0 <= i < group.len() ==> status_priority((#[trigger] group[i]).status)
                <= status_priority(decisive(group).status),
    decreases group.len(),
{
    if group.len() == 1 {
        assert(group[0] == decisive(group));
    } else {
        let rest = group.drop_last();
        lemma_decisive(rest);
        let best = decisive(rest);
        let k = rest.index_of(best);
        assert(group[k] == best);
        assert(group[group.len() - 1] == group.last());
        assert forall|i: int| 0 <= i < group.len() implies status_priority(
            (#[trigger] group[i]).status,
        ) <= status_priority(decisive(group).status) by {
            if i < rest.len() {
                assert(rest[i] == group[i]);
            }
        }
    }
}

/// One of the results is of the same test as `result` and counts no less.
pub open spec fn decided_in(results: Seq<ResultModel>, result: ResultModel) -> bool {
    exists|i: int|
        0 <= i < results.len() && same_test(#[trigger] results[i], result) && status_priority(
            results[i].status,
        ) >= status_priority(result.status)
}

proof fn lemma_merged_step(results: Seq<ResultModel>)
    requires
        results.len() > 0,
    ensures
        ({
            let best = decisive(results_of_test(results, results[0]));
            let rest = results_of_others(results, results[0]);
            &&& merged(results) == seq![best] + merged(rest)
            &&& results.contains(best)
            &&& same_test(best, results[0])
            &&& rest.len() < results.len()
            &&& forall|r: ResultModel| #[trigger]
                rest.contains(r) <==> results.contains(r) && !same_test(r, results[0])
            &&& forall|r: ResultModel|
                #![trigger results.contains(r)]
                results.contains(r) && same_test(r, results[0]) ==> status_priority(r.status)
                    <= status_priority(best.status)
        }),
{
    lemma_others_are_fewer(results);
    let first = results[0];
    let same = |r: ResultModel| same_test(r, first);
    let other = |r: ResultModel| !same_test(r, first);
    let group = results_of_test(results, first);
    let rest = results_of_others(results, first);
    results.lemma_filter_contains(same, 0);
    assert(group.contains(first));
    lemma_decisive(group);
    lemma_filter_from(results, same);
    lemma_filter_from(results, other);
    let best = decisive(group);
    assert(same_test(best, first)) by {
        let k = group.index_of(best);
        results.lemma_filter_pred(same, k);
    }
    assert forall|r: ResultModel| #[trigger] rest.contains(r) implies results.contains(r)
        && !same_test(r, first) by {
        let k = rest.index_of(r);
        results.lemma_filter_pred(other, k);
    }
    assert forall|r: ResultModel| results.contains(r) && !same_test(r, first) implies
        #[trigger] rest.contains(r) by {
        results.lemma_filter_contains(other, results.index_of(r));
    }
    assert forall|r: ResultModel|
        #![trigger results.contains(r)]
        results.contains(r) && same_test(r, first) implies status_priority(r.status)
        <= status_priority(best.status) by {
        results.lemma_filter_contains(same, results.index_of(r));
        let m = group.index_of(r);
        assert(status_priority(group[m].status) <= status_priority(best.status));
    }
}

/// Nothing that was found out of a test is lost, and no test stands in for another one: for every
/// result that goes in, one comes out with the same module, function, call, packet and thread,
/// whose status counts no less.
pub proof fn law_every_test_keeps_a_result(results: Seq<ResultModel>, i: int)
    requires
        0 <= i < results.len(),
    ensures
        exists|k: int|
            {
                let out = #[trigger] merged(results)[k];
                &&& 0 <= k < merged(results).len()
                &&& out.uid.module_id.0 == results[i].uid.module_id.0
                &&& out.uid.function_id.0 == results[i].uid.function_id.0
                &&& out.call.0 == results[i].call.0
                &&& out.pkt.0 == results[i].pkt.0
                &&& out.thread_lid.0 == results[i].thread_lid.0
                &&& status_priority(out.status) >= status_priority(results[i].status)
            },
{
    law_one_decisive_result_for_each_test(results);
    assert(results.contains(results[i]));
    assert(decided_in(merged(results), results[i]));
    let k = choose|k: int|
        0 <= k < merged(results).len() && same_test(#[trigger] merged(results)[k], results[i])
            && status_priority(merged(results)[k].status) >= status_priority(results[i].status);
    assert(merged(results)[k].call.0 == results[i].call.0);
}

/// A test has one result at most among those that come out: two of them differ in the module, the
/// function, the call, the packet or the thread.
pub proof fn law_no_test_has_two_results(results: Seq<ResultModel>, i: int, j: int)
    requires
        0 <= i < j < merged(results).len(),
    ensures
        ({
            let (a, b) = (merged(results)[i], merged(results)[j]);
            ||| a.uid.module_id.0 != b.uid.module_id.0
            ||| a.uid.function_id.0 != b.uid.function_id.0
            ||| a.call.0 != b.call.0
            ||| a.pkt.0 != b.pkt.0
            ||| a.thread_lid.0 != b.thread_lid.0
        }),
{
    law_one_decisive_result_for_each_test(results);
    assert(!same_test(merged(results)[i], merged(results)[j]));
}

/// What the test itself said counts most, whether it passed or threw an exception. Then comes that
/// its time was up, then that the time of its process was up, then how its process ended, then
/// that it could not be run, and last what may be spurious.
pub proof fn law_statuses_take_precedence(code: i32, number: i32, fatal: Seq<char>, spurious: Seq<char>)
    ensures
        status_priority(StatusModel::Pass) == status_priority(StatusModel::Exception),
        status_priority(StatusModel::Exception) > status_priority(StatusModel::Timeout),
        status_priority(StatusModel::Timeout) > status_priority(StatusModel::GlobalTimeout),
        status_priority(StatusModel::GlobalTimeout) > status_priority(StatusModel::Exit(code)),
        status_priority(StatusModel::Exit(code)) == status_priority(StatusModel::Signal(number)),
        status_priority(StatusModel::Signal(number)) > status_priority(StatusModel::Fatal(fatal)),
        status_priority(StatusModel::Fatal(fatal)) > status_priority(
            StatusModel::Spurious(spurious),
        ),
{
}

/// Every test that has a result keeps exactly one, which is one of its results and counts no
/// less than any other of them, and no result comes from nowhere.
pub proof fn law_one_decisive_result_for_each_test(results: Seq<ResultModel>)
    ensures
        forall|i: int|
            0 <= i < merged(results).len() ==> results.contains(#[trigger] merged(results)[i]),
        forall|i: int, j: int|
            0 <= i < j < merged(results).len() ==> !same_test(
                #[trigger] merged(results)[i],
                #[trigger] merged(results)[j],
            ),
        forall|r: ResultModel| #[trigger]
            results.contains(r) ==> decided_in(merged(results), r),
    decreases results.len(),
{
    if results.len() > 0 {
        lemma_merged_step(results);
        let best = decisive(results_of_test(results, results[0]));
        let rest = results_of_others(results, results[0]);
        let out = merged(results);
        let later = merged(rest);
        law_one_decisive_result_for_each_test(rest);
        assert forall|i: int| 0 <= i < out.len() implies results.contains(#[trigger] out[i]) by {
            if i > 0 {
                assert(out[i] == later[i - 1]);
                assert(rest.contains(later[i - 1]));
            }
        }
        assert forall|i: int, j: int| 0 <= i < j < out.len() implies !same_test(
            #[trigger] out[i],
            #[trigger] out[j],
        ) by {
            assert(out[j] == later[j - 1]);
            assert(rest.contains(later[j - 1]));
            if i > 0 {
                assert(out[i] == later[i - 1]);
            }
        }
        assert forall|r: ResultModel| #[trigger] results.contains(r) implies decided_in(
            out,
            r,
        ) by {
            if same_test(r, results[0]) {
                assert(same_test(out[0], r));
            } else {
                assert(rest.contains(r));
                let i = choose|i: int|
                    0 <= i < later.len() && same_test(#[trigger] later[i], r) && status_priority(
                        later[i].status,
                    ) >= status_priority(r.status);
                assert(out[i + 1] == later[i]);
            }
        }
    }
}

proof fn lemma_filter_from(results: Seq<ResultModel>, pred: spec_fn(ResultModel) -> bool)
    ensures
        forall|r: ResultModel| #[trigger] results.filter(pred).contains(r) ==> results.contains(r),
    decreases results.len(),
{
    reveal(Seq::filter);
    if results.len() > 0 {
        let before = results.drop_last();
        lemma_filter_from(before, pred);
        assert forall|r: ResultModel| #[trigger] results.filter(pred).contains(r) implies
            results.contains(r) by {
            let i = results.filter(pred).index_of(r);
            if i < before.filter(pred).len() {
                assert(before.filter(pred)[i] == r);
                assert(before.filter(pred).contains(r));
                let k = before.index_of(r);
                assert(results[k] == r);
            } else {
                assert(results[results.len() - 1] == r);
            }
        }
    }
}

/// Where an item that was kept stood: what was kept behind it stood behind it, and what was kept
/// in front of it stood in front of it.
proof fn lemma_kept_in_order(
    s: Seq<ResultModel>,
    p: spec_fn(ResultModel) -> bool,
    g: int,
) -> (at: int)
    requires
        0 <= g < s.filter(p).len(),
    ensures
        0 <= at < s.len(),
        s[at] == s.filter(p)[g],
        forall|j: int|
            at < j < s.len() && p(#[trigger] s[j]) ==> exists|h: int|
                g < h < s.filter(p).len() && #[trigger] s.filter(p)[h] == s[j],
        forall|j: int|
            0 <= j < at && p(#[trigger] s[j]) ==> exists|h: int|
                0 <= h < g && #[trigger] s.filter(p)[h] == s[j],
    decreases s.len(),
{
    reveal(Seq::filter);
    let front = s.drop_last();
    let kept = front.filter(p);
    if g < kept.len() {
        let at = lemma_kept_in_order(front, p, g);
        assert forall|j: int| at < j < s.len() && p(#[trigger] s[j]) implies exists|h: int|
            g < h < s.filter(p).len() && #[trigger] s.filter(p)[h] == s[j] by {
            if j < front.len() {
                assert(front[j] == s[j]);
                let h = choose|h: int| g < h < kept.len() && #[trigger] kept[h] == front[j];
                assert(s.filter(p)[h] == s[j]);
            } else {
                assert(s.filter(p)[kept.len() as int] == s[j]);
            }
        }
        assert forall|j: int| 0 <= j < at && p(#[trigger] s[j]) implies exists|h: int|
            0 <= h < g && #[trigger] s.filter(p)[h] == s[j] by {
            assert(front[j] == s[j]);
            let h = choose|h: int| 0 <= h < g && #[trigger] kept[h] == front[j];
            assert(s.filter(p)[h] == s[j]);
        }
        at
    } else {
        let at = s.len() - 1;
        assert forall|j: int| 0 <= j < at && p(#[trigger] s[j]) implies exists|h: int|
            0 <= h < g && #[trigger] s.filter(p)[h] == s[j] by {
            assert(front[j] == s[j]);
            front.lemma_filter_contains(p, j);
            let h = kept.index_of(front[j]);
            assert(s.filter(p)[h] == s[j]);
        }
        at
    }
}

proof fn lemma_decisive_is_last(group: Seq<ResultModel>) -> (g: int)
    requires
        group.len() > 0,
    ensures
        0 <= g < group.len(),
        group[g] == decisive(group),
        forall|h: int|
            g < h < group.len() ==> status_priority((#[trigger] group[h]).status) < status_priority(
                group[g].status,
            ),
    decreases group.len(),
{
    if group.len() == 1 {
        0
    } else {
        let front = group.drop_last();
        let g = lemma_decisive_is_last(front);
        if status_priority(group.last().status) >= status_priority(decisive(front).status) {
            group.len() - 1
        } else {
            assert forall|h: int| g < h < group.len() implies status_priority(
                (#[trigger] group[h]).status,
            ) < status_priority(group[g].status) by {
                if h < front.len() {
                    assert(front[h] == group[h]);
                }
            }
            g
        }
    }
}

proof fn lemma_decisive_stands_last(results: Seq<ResultModel>, k: int) -> (i: int)
    requires
        0 <= k < merged(results).len(),
    ensures
        0 <= i < results.len(),
        merged(results)[k] == results[i],
        forall|j: int|
            i < j < results.len() && same_test(#[trigger] results[j], results[i])
                ==> status_priority(results[j].status) < status_priority(results[i].status),
    decreases results.len(),
{
    lemma_merged_step(results);
    let first = results[0];
    let same = |r: ResultModel| same_test(r, first);
    let other = |r: ResultModel| !same_test(r, first);
    let group = results_of_test(results, first);
    let rest = results_of_others(results, first);
    if k == 0 {
        results.lemma_filter_contains(same, 0);
        assert(group.contains(first));
        let g = lemma_decisive_is_last(group);
        let i = lemma_kept_in_order(results, same, g);
        assert forall|j: int|
            i < j < results.len() && same_test(#[trigger] results[j], results[i]) implies
            status_priority(results[j].status) < status_priority(results[i].status) by {
            assert(same(results[j]));
            let h = choose|h: int| g < h < group.len() && #[trigger] group[h] == results[j];
            assert(status_priority(group[h].status) < status_priority(group[g].status));
        }
        i
    } else {
        let g = lemma_decisive_stands_last(rest, k - 1);
        let i = lemma_kept_in_order(results, other, g);
        results.lemma_filter_pred(other, g);
        assert forall|j: int|
            i < j < results.len() && same_test(#[trigger] results[j], results[i]) implies
            status_priority(results[j].status) < status_priority(results[i].status) by {
            assert(other(results[j]));
            let h = choose|h: int| g < h < rest.len() && #[trigger] rest[h] == results[j];
            assert(status_priority(rest[h].status) < status_priority(rest[g].status));
        }
        i
    }
}

/// A result that comes out is one that went in, and of those of its test that came after it, none
/// counts as much: among results that count alike, the last one is kept.
pub proof fn law_the_later_of_equals_counts(results: Seq<ResultModel>, k: int)
    requires
        0 <= k < merged(results).len(),
    ensures
        exists|i: int|
            #![trigger results[i]]
            0 <= i < results.len() && merged(results)[k] == results[i] && forall|j: int|
                i < j < results.len() && (#[trigger] results[j]).uid == results[i].uid
                    && results[j].call == results[i].call && results[j].pkt == results[i].pkt
                    && results[j].thread_lid == results[i].thread_lid ==> status_priority(
                    results[j].status,
                ) < status_priority(results[i].status),
{
    let i = lemma_decisive_stands_last(results, k);
    assert forall|j: int|
        i < j < results.len() && (#[trigger] results[j]).uid == results[i].uid && results[j].call
            == results[i].call && results[j].pkt == results[i].pkt && results[j].thread_lid
            == results[i].thread_lid implies status_priority(results[j].status) < status_priority(
        results[i].status,
    ) by {
        assert(same_test(results[j], results[i]));
    }
}

/// The results come out in the order in which their tests first had one: of two that come out, the
/// first one's test had a result before the second one's had any.
pub proof fn law_tests_keep_their_order(results: Seq<ResultModel>, i: int, j: int)
    requires
        0 <= i < j < merged(results).len(),
    ensures
        exists|a: int|
            #![trigger results[a]]
            {
                let (x, y) = (merged(results)[i], merged(results)[j]);
                &&& 0 <= a < results.len()
                &&& results[a].uid == x.uid && results[a].call == x.call && results[a].pkt == x.pkt
                    && results[a].thread_lid == x.thread_lid
                &&& forall|b: int|
                    0 <= b < results.len() && (#[trigger] results[b]).uid == y.uid
                        && results[b].call == y.call && results[b].pkt == y.pkt
                        && results[b].thread_lid == y.thread_lid ==> a < b
            },
    decreases results.len(),
{
    lemma_merged_step(results);
    law_no_test_has_two_results(results, i, j);
    let first = results[0];
    let other = |r: ResultModel| !same_test(r, first);
    let rest = results_of_others(results, first);
    let (x, y) = (merged(results)[i], merged(results)[j]);
    assert(y == merged(rest)[j - 1]);
    law_one_decisive_result_for_each_test(rest);
    assert(rest.contains(y));
    if i == 0 {
        assert(same_test(x, first));
        assert forall|b: int|
            0 <= b < results.len() && (#[trigger] results[b]).uid == y.uid && results[b].call
                == y.call && results[b].pkt == y.pkt && results[b].thread_lid == y.thread_lid
            implies 0 < b by {
            assert(!same_test(y, first));
        }
        assert(results[0].uid == x.uid);
    } else {
        assert(x == merged(rest)[i - 1]);
        assert(rest.contains(x));
        law_tests_keep_their_order(rest, i - 1, j - 1);
        let g = choose|g: int|
            #![trigger rest[g]]
            0 <= g < rest.len() && rest[g].uid == x.uid && rest[g].call == x.call && rest[g].pkt
                == x.pkt && rest[g].thread_lid == x.thread_lid && forall|b: int|
                0 <= b < rest.len() && (#[trigger] rest[b]).uid == y.uid && rest[b].call == y.call
                    && rest[b].pkt == y.pkt && rest[b].thread_lid == y.thread_lid ==> g < b;
        let a = lemma_kept_in_order(results, other, g);
        assert forall|b: int|
            0 <= b < results.len() && (#[trigger] results[b]).uid == y.uid && results[b].call
                == y.call && results[b].pkt == y.pkt && results[b].thread_lid == y.thread_lid
            implies a < b by {
            assert(!same_test(y, first));
            assert(other(results[b]));
            if b < a {
                let h = choose|h: int| 0 <= h < g && #[trigger] rest[h] == results[b];
                assert(rest[h].uid == y.uid);
            }
        }
        assert(results[a].uid == x.uid);
    }
}

impl Ranked for LogResult {
    /// by module, function, call and packet
    open spec fn rank(&self) -> int {
        self.uid.module_id.0 * 0x1_0000_0000_0000_0000_0000_0000_0000_0000int
            + self.uid.function_id.0 * 0x1_0000_0000_0000_0000_0000_0000int + self.call.0
            * 0x1_0000_0000_0000_0000int + self.pkt.0
    }

    fn not_after(&self, other: &Self) -> (b: bool) {
        if self.uid.module_id.0 != other.uid.module_id.0 {
            self.uid.module_id.0 < other.uid.module_id.0
        } else if self.uid.function_id.0 != other.uid.function_id.0 {
            self.uid.function_id.0 < other.uid.function_id.0
        } else if self.call.0 != other.call.0 {
            self.call.0 < other.call.0
        } else {
            self.pkt.0 <= other.pkt.0
        }
    }
}

/// The results in the order in which they are reported: sorted, and behind them the failures as
/// they came up.
pub open spec fn report_order(
    results: Seq<LogResult>,
    errors: Seq<TestJobFailure>,
    order: Seq<LogResult>,
) -> bool {
    &&& order.len() == results.len() + errors.len()
    &&& stably_sorted(results, order.subrange(0, results.len() as int))
    &&& forall|i: int|
        0 <= i < errors.len() ==> order[results.len() + i] == (#[trigger] errors[i]).log_res
}

/// The results of a report are sorted by module, then by function, then by call, then by packet.
pub proof fn law_reports_are_sorted(
    results: Seq<LogResult>,
    errors: Seq<TestJobFailure>,
    order: Seq<LogResult>,
    i: int,
    j: int,
)
    requires
        report_order(results, errors, order),
        0 <= i < j < results.len(),
    ensures
        ({
            let (a, b) = (order[i], order[j]);
            ||| a.uid.module_id.0 < b.uid.module_id.0
            ||| a.uid.module_id.0 == b.uid.module_id.0 && {
                ||| a.uid.function_id.0 < b.uid.function_id.0
                ||| a.uid.function_id.0 == b.uid.function_id.0 && {
                    ||| a.call.0 < b.call.0
                    ||| a.call.0 == b.call.0 && a.pkt.0 <= b.pkt.0
                }
            }
        }),
{
    let sorted = order.subrange(0, results.len() as int);
    assert(sorted[i].rank() <= sorted[j].rank());
    assert(sorted[i] == order[i] && sorted[j] == order[j]);
}

/// Everything is reported: every result, every failure behind all the results, and nothing else.
pub proof fn law_nothing_is_missing_from_a_report(
    results: Seq<LogResult>,
    errors: Seq<TestJobFailure>,
    order: Seq<LogResult>,
)
    requires
        report_order(results, errors, order),
    ensures
        order.len() == results.len() + errors.len(),
        forall|i: int|
            0 <= i < results.len() ==> order.subrange(0, results.len() as int).contains(
                #[trigger] results[i],
            ),
        forall|k: int| 0 <= k < results.len() ==> results.contains(#[trigger] order[k]),
        forall|i: int|
            0 <= i < errors.len() ==> order[results.len() + i] == (#[trigger] errors[i]).log_res,
{
    let sorted = order.subrange(0, results.len() as int);
    law_sorting_keeps_the_items(results, sorted);
    assert forall|k: int| 0 <= k < results.len() implies results.contains(#[trigger] order[k]) by {
        assert(order[k] == sorted[k]);
    }
}

/// The results in the order in which they are reported.
#[verifier::loop_isolation(false)]
pub fn report_results(results: Vec<LogResult>, errors: Vec<TestJobFailure>) -> (order: Vec<
    LogResult,
>)
    ensures
        report_order(results@, errors@, order@),
{
    let ghost all = errors@;
    let mut order = stable_sort(results);
    let ghost sorted = order@;
    let mut errors = errors;
    let ghost mut done: int = 0;
    proof {
        assert(errors@ =~= all.subrange(0, all.len() as int));
    }
    while errors.len() > 0
        invariant
            0 <= done <= all.len(),
            errors@ == all.subrange(done, all.len() as int),
            order@.len() == sorted.len() + done,
            order@.subrange(0, sorted.len() as int) =~= sorted,
            forall|i: int|
                0 <= i < done ==> order@[sorted.len() + i] == (#[trigger] all[i]).log_res,
        decreases errors@.len(),
    {
        let error = errors.remove(0);
        order.push(error.log_res);
        proof {
            assert(error == all[done]);
            assert(errors@ =~= all.subrange(done + 1, all.len() as int));
            done = done + 1;
        }
    }
    order
}

impl Ranked for (NumFunUid, u64) {
    /// the functions that are called more often come first
    open spec fn rank(&self) -> int {
        -(self.1 as int)
    }

    fn not_after(&self, other: &Self) -> (b: bool) {
        self.1 >= other.1
    }
}

/// The functions with the numbers of their calls, those that are called more often first.
pub fn most_called_first(fn_freqs: Vec<(NumFunUid, u64)>) -> (sorted: Vec<(NumFunUid, u64)>)
    ensures
        stably_sorted(fn_freqs@, sorted@),
{
    stable_sort(fn_freqs)
}

/// A function that is called more often never stands behind one that is called less often.
pub proof fn law_calls_fall(fn_freqs: Seq<(NumFunUid, u64)>, sorted: Seq<(NumFunUid, u64)>)
    requires
        stably_sorted(fn_freqs, sorted),
    ensures
        sorted.len() == fn_freqs.len(),
        forall|i: int, j: int|
            0 <= i < j < sorted.len() ==> (#[trigger] sorted[i]).1 >= (#[trigger] sorted[j]).1,
{
    assert forall|i: int, j: int| 0 <= i < j < sorted.len() implies (#[trigger] sorted[i]).1 >= (
    #[trigger] sorted[j]).1 by {
        assert(sorted[i].rank() <= sorted[j].rank());
    }
}

/// Whether the selection of functions is to be skipped.
pub fn skip_tracing_selection(selection_arg: &str) -> (skip: bool)
    ensures
        skip == (selection_arg@ == "skip"@),
{
    same_text(selection_arg, "skip")
}

} // verus!
