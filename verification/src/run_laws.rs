use vstd::prelude::*;

use crate::run::{
    found_fixtures, initial_run, run_advance, run_record, run_state_wf, scenario_fixture_order,
    texts_sorted, ErroredView, FixtureResultView, RunActionView, RunState,
};

verus! {

/// The failure a pause reports after an outcome.
pub open spec fn failure_of(outcome: Result<FixtureResultView, ErroredView>) -> Option<ErroredView> {
    match outcome {
        Err(e) => Some(e),
        Ok(_) => None,
    }
}

/// The retryable file an outcome adds, if any.
pub open spec fn retry_of(outcome: Result<FixtureResultView, ErroredView>) -> Seq<Seq<char>> {
    match outcome {
        Ok(FixtureResultView::Retryable(file)) => seq![file],
        _ => Seq::empty(),
    }
}

/// One retry per file, in order.
pub open spec fn retries(files: Seq<Seq<char>>) -> Seq<RunActionView> {
    files.map_values(|file: Seq<char>| RunActionView::Retry(file))
}

/// The first pass over `fixtures`, the post of `fixtures[i]` having the outcome
/// `outcomes[i]`: each fixture is posted in turn and followed by a pause that
/// reports a failure to post, until an unauthorized answer finishes the run
/// with failure. Gives the actions, and the retryable files where the pass
/// went through (`None` where it stopped).
pub open spec fn first_pass(
    fixtures: Seq<Seq<char>>,
    outcomes: Seq<Result<FixtureResultView, ErroredView>>,
) -> (Seq<RunActionView>, Option<Seq<Seq<char>>>)
    decreases fixtures.len(),
{
    if fixtures.len() == 0 {
        (Seq::empty(), Some(Seq::empty()))
    } else if outcomes[0] == Ok::<FixtureResultView, ErroredView>(FixtureResultView::Unauthorized) {
        (seq![RunActionView::Post(fixtures[0]), RunActionView::Finish(false)], None)
    } else {
        let rest = first_pass(fixtures.drop_first(), outcomes.drop_first());
        (
            seq![RunActionView::Post(fixtures[0]), RunActionView::Pause(failure_of(outcomes[0]))]
                + rest.0,
            match rest.1 {
                Some(r) => Some(retry_of(outcomes[0]) + r),
                None => None,
            },
        )
    }
}

/// The first pass's actions, then, where it went through, one retry per
/// retryable file (after those already in `retryable`) and success.
pub open spec fn finish_run(
    pass: (Seq<RunActionView>, Option<Seq<Seq<char>>>),
    retryable: Seq<Seq<char>>,
) -> Seq<RunActionView> {
    match pass.1 {
        None => pass.0,
        Some(r) => pass.0 + retries(retryable + r) + seq![RunActionView::Finish(true)],
    }
}

/// Everything a run over `fixtures` does, the post of `fixtures[i]` having the
/// outcome `outcomes[i]`.
pub open spec fn expected_run(
    fixtures: Seq<Seq<char>>,
    outcomes: Seq<Result<FixtureResultView, ErroredView>>,
) -> Seq<RunActionView> {
    finish_run(first_pass(fixtures, outcomes), Seq::empty())
}

/// The actions a run gives from the state `s`, at most `fuel` of them, up to
/// and including the one that finishes it, where each outcome it waits for is
/// taken in turn from `outcomes`.
pub open spec fn run_trace(
    s: RunState,
    outcomes: Seq<Result<FixtureResultView, ErroredView>>,
    fuel: nat,
) -> Seq<RunActionView>
    decreases fuel,
{
    if fuel == 0 {
        Seq::empty()
    } else if s.awaiting {
        let (t, a) = run_record(s, outcomes[0]);
        if a is Finish {
            seq![a]
        } else {
            seq![a] + run_trace(t, outcomes.drop_first(), (fuel - 1) as nat)
        }
    } else {
        let (t, a) = run_advance(s);
        if a is Finish {
            seq![a]
        } else {
            seq![a] + run_trace(t, outcomes, (fuel - 1) as nat)
        }
    }
}

proof fn lemma_retry_phase(s: RunState, outcomes: Seq<Result<FixtureResultView, ErroredView>>, fuel: nat)
    requires
        run_state_wf(s),
        !s.awaiting,
        s.finished is None,
        s.posted == s.fixtures.len(),
        fuel >= s.retryable.len() - s.retried + 1,
    ensures
        run_trace(s, outcomes, fuel) == retries(s.retryable.skip(s.retried as int)) + seq![
            RunActionView::Finish(true),
        ],
    decreases s.retryable.len() - s.retried,
{
    let (t, a) = run_advance(s);
    if s.retried < s.retryable.len() {
        lemma_retry_phase(t, outcomes, (fuel - 1) as nat);
        assert(s.retryable.skip(s.retried as int) =~= seq![s.retryable[s.retried as int]]
            + s.retryable.skip(t.retried as int));
        assert(retries(s.retryable.skip(s.retried as int)) =~= seq![
            RunActionView::Retry(s.retryable[s.retried as int]),
        ] + retries(s.retryable.skip(t.retried as int)));
        assert(run_trace(s, outcomes, fuel) =~= seq![a] + run_trace(t, outcomes, (fuel - 1) as nat));
    } else {
        assert(s.retryable.skip(s.retried as int) =~= Seq::<Seq<char>>::empty());
        assert(retries(Seq::<Seq<char>>::empty()) =~= Seq::<RunActionView>::empty());
    }
}

proof fn lemma_first_pass(s: RunState, outcomes: Seq<Result<FixtureResultView, ErroredView>>, fuel: nat)
    requires
        run_state_wf(s),
        !s.awaiting,
        s.finished is None,
        s.retried == 0,
        outcomes.len() >= s.fixtures.len() - s.posted,
        fuel >= 3 * (s.fixtures.len() - s.posted) + s.retryable.len() + 1,
    ensures
        run_trace(s, outcomes, fuel) == finish_run(
            first_pass(s.fixtures.skip(s.posted as int), outcomes),
            s.retryable,
        ),
    decreases s.fixtures.len() - s.posted,
{
    let rest = s.fixtures.skip(s.posted as int);
    if s.posted == s.fixtures.len() {
        lemma_retry_phase(s, outcomes, fuel);
        assert(rest.len() == 0);
        assert(s.retryable + Seq::<Seq<char>>::empty() =~= s.retryable);
        assert(s.retryable.skip(0) =~= s.retryable);
        assert(first_pass(rest, outcomes).0 =~= Seq::<RunActionView>::empty());
        assert(finish_run(first_pass(rest, outcomes), s.retryable) =~= retries(s.retryable) + seq![
            RunActionView::Finish(true),
        ]);
    } else {
        let (t, post) = run_advance(s);
        assert(post == RunActionView::Post(rest[0]));
        let (u, next) = run_record(t, outcomes[0]);
        assert(rest.drop_first() =~= s.fixtures.skip(u.posted as int));
        if outcomes[0] == Ok::<FixtureResultView, ErroredView>(FixtureResultView::Unauthorized) {
            assert(run_trace(t, outcomes, (fuel - 1) as nat) =~= seq![next]);
            assert(run_trace(s, outcomes, fuel) =~= seq![post, next]);
        } else {
            let tail = outcomes.drop_first();
            lemma_first_pass(u, tail, (fuel - 2) as nat);
            assert(u.retryable == s.retryable + retry_of(outcomes[0]));
            assert(next == RunActionView::Pause(failure_of(outcomes[0])));
            assert(run_trace(t, outcomes, (fuel - 1) as nat) =~= seq![next] + run_trace(
                u,
                tail,
                (fuel - 2) as nat,
            ));
            assert(run_trace(s, outcomes, fuel) =~= seq![post] + run_trace(
                t,
                outcomes,
                (fuel - 1) as nat,
            ));
            let inner = first_pass(rest.drop_first(), tail);
            match inner.1 {
                Some(r) => {
                    assert(s.retryable + (retry_of(outcomes[0]) + r) =~= u.retryable + r);
                },
                None => {},
            }
            assert(run_trace(s, outcomes, fuel) =~= finish_run(first_pass(rest, outcomes), s.retryable));
        }
    }
}

/// A run over the fixtures of a scenario does exactly what `expected_run`
/// says: it posts the fixtures one by one in their order, pausing after each
/// and reporting each failure to post; on the first unauthorized answer it
/// finishes with failure and posts nothing more; otherwise it then posts each
/// retryable fixture once more, in the order they were answered, and finishes
/// with success. `fuel` bounds the number of steps looked at; `3n + 1` steps
/// always suffice for `n` fixtures.
pub proof fn lemma_run_does_expected(
    fixtures: Seq<Seq<char>>,
    outcomes: Seq<Result<FixtureResultView, ErroredView>>,
    fuel: nat,
)
    requires
        outcomes.len() >= fixtures.len(),
        fuel >= 3 * fixtures.len() + 1,
    ensures
        run_trace(initial_run(fixtures), outcomes, fuel) == expected_run(fixtures, outcomes),
{
    let s = initial_run(fixtures);
    assert(fixtures.skip(0) =~= fixtures);
    lemma_first_pass(s, outcomes, fuel);
}

/// The first pass stops exactly when some fixture is answered as unauthorized.
pub proof fn lemma_pass_stops_iff_unauthorized(
    fixtures: Seq<Seq<char>>,
    outcomes: Seq<Result<FixtureResultView, ErroredView>>,
)
    requires
        outcomes.len() >= fixtures.len(),
    ensures
        first_pass(fixtures, outcomes).1 is None <==> exists|i: int|
            0 <= i < fixtures.len() && outcomes[i] == Ok::<FixtureResultView, ErroredView>(
                FixtureResultView::Unauthorized,
            ),
    decreases fixtures.len(),
{
    if fixtures.len() > 0 {
        let tail = outcomes.drop_first();
        lemma_pass_stops_iff_unauthorized(fixtures.drop_first(), tail);
        if exists|i: int|
            0 <= i < fixtures.len() - 1 && tail[i] == Ok::<FixtureResultView, ErroredView>(
                FixtureResultView::Unauthorized,
            ) {
            let i = choose|i: int|
                0 <= i < fixtures.len() - 1 && tail[i] == Ok::<FixtureResultView, ErroredView>(
                    FixtureResultView::Unauthorized,
                );
            assert(outcomes[i + 1] == tail[i]);
        }
        if exists|i: int|
            0 <= i < fixtures.len() && outcomes[i] == Ok::<FixtureResultView, ErroredView>(
                FixtureResultView::Unauthorized,
            ) {
            let i = choose|i: int|
                0 <= i < fixtures.len() && outcomes[i] == Ok::<FixtureResultView, ErroredView>(
                    FixtureResultView::Unauthorized,
                );
            if i > 0 {
                assert(tail[i - 1] == outcomes[i]);
            }
        }
    }
}

/// The outcome is an unauthorized answer.
pub open spec fn is_unauthorized(outcome: Result<FixtureResultView, ErroredView>) -> bool {
    outcome == Ok::<FixtureResultView, ErroredView>(FixtureResultView::Unauthorized)
}

/// What the run does right after a first-pass post with this outcome: finish
/// with failure on an unauthorized answer, else pause, reporting a failure to
/// post.
pub open spec fn after_post(outcome: Result<FixtureResultView, ErroredView>) -> RunActionView {
    if is_unauthorized(outcome) {
        RunActionView::Finish(false)
    } else {
        RunActionView::Pause(failure_of(outcome))
    }
}

/// How many fixtures the first pass posts: up to and including the first one
/// answered as unauthorized, or all of them.
pub open spec fn pass_length(
    fixtures: Seq<Seq<char>>,
    outcomes: Seq<Result<FixtureResultView, ErroredView>>,
) -> nat
    decreases fixtures.len(),
{
    if fixtures.len() == 0 {
        0
    } else if is_unauthorized(outcomes[0]) {
        1
    } else {
        1 + pass_length(fixtures.drop_first(), outcomes.drop_first())
    }
}

/// The files answered as retryable, in answer order, repeats kept.
pub open spec fn retryable_files(outcomes: Seq<Result<FixtureResultView, ErroredView>>) -> Seq<
    Seq<char>,
>
    decreases outcomes.len(),
{
    if outcomes.len() == 0 {
        Seq::empty()
    } else {
        retry_of(outcomes[0]) + retryable_files(outcomes.drop_first())
    }
}

proof fn lemma_first_pass_shape(
    fixtures: Seq<Seq<char>>,
    outcomes: Seq<Result<FixtureResultView, ErroredView>>,
)
    requires
        outcomes.len() >= fixtures.len(),
    ensures
        ({
            let (acts, r) = first_pass(fixtures, outcomes);
            let p = pass_length(fixtures, outcomes);
            &&& p <= fixtures.len()
            &&& acts.len() == 2 * p
            &&& forall|j: int|
                0 <= j < p ==> acts[2 * j] == RunActionView::Post(fixtures[j]) && acts[2 * j + 1]
                    == after_post(outcomes[j])
            &&& forall|j: int| 0 <= j < p - 1 ==> !is_unauthorized(#[trigger] outcomes[j])
            &&& r is None <==> (p > 0 && is_unauthorized(outcomes[p - 1]))
            &&& r is Some ==> p == fixtures.len() && r->0 == retryable_files(
                outcomes.take(fixtures.len() as int),
            )
        }),
    decreases fixtures.len(),
{
    if fixtures.len() > 0 && !is_unauthorized(outcomes[0]) {
        let f2 = fixtures.drop_first();
        let o2 = outcomes.drop_first();
        lemma_first_pass_shape(f2, o2);
        let rest = first_pass(f2, o2);
        let p2 = pass_length(f2, o2);
        let acts = first_pass(fixtures, outcomes).0;
        assert(acts == seq![RunActionView::Post(fixtures[0]), RunActionView::Pause(failure_of(outcomes[0]))] + rest.0);
        assert forall|j: int| 0 <= j < p2 + 1 implies acts[2 * j] == RunActionView::Post(fixtures[j])
            && acts[2 * j + 1] == after_post(outcomes[j]) by {
            if j > 0 {
                assert(acts[2 * j] == rest.0[2 * (j - 1)]);
                assert(acts[2 * j + 1] == rest.0[2 * (j - 1) + 1]);
                assert(f2[j - 1] == fixtures[j]);
                assert(o2[j - 1] == outcomes[j]);
            }
        }
        assert forall|j: int| 0 <= j < p2 implies !is_unauthorized(#[trigger] outcomes[j]) by {
            if j > 0 {
                assert(o2[j - 1] == outcomes[j]);
            }
        }
        if p2 > 0 {
            assert(o2[p2 - 1] == outcomes[p2 as int]);
        }
        if rest.1 is Some {
            assert(outcomes.take(fixtures.len() as int).drop_first() =~= o2.take(f2.len() as int));
            assert(outcomes.take(fixtures.len() as int)[0] == outcomes[0]);
        }
    } else if fixtures.len() == 0 {
        assert(outcomes.take(0) =~= Seq::<Result<FixtureResultView, ErroredView>>::empty());
    }
}

/// The steps of a run, where the post of `fixtures[i]` has the outcome
/// `outcomes[i]`: the first pass posts the fixtures in order, each post followed
/// at once by `after_post` of its outcome (a pause after every post, reporting a
/// failure to post, or the end of the run on an unauthorized answer). Where some
/// fixture is answered as unauthorized, the run stops right after the first
/// such post and fails, having retried nothing. Otherwise every fixture is
/// posted, then each file answered as retryable is posted once more, in answer
/// order (so a fixture that could not be posted at all is not retried), and the
/// run succeeds, with at most two requests per fixture.
pub proof fn lemma_run_steps(
    fixtures: Seq<Seq<char>>,
    outcomes: Seq<Result<FixtureResultView, ErroredView>>,
)
    requires
        outcomes.len() >= fixtures.len(),
    ensures
        ({
            let run = expected_run(fixtures, outcomes);
            let p = pass_length(fixtures, outcomes);
            let n = fixtures.len();
            &&& p <= n
            &&& forall|j: int|
                0 <= j < p ==> run[2 * j] == RunActionView::Post(fixtures[j]) && run[2 * j + 1]
                    == after_post(outcomes[j])
            &&& (exists|j: int| 0 <= j < n && is_unauthorized(#[trigger] outcomes[j])) ==> {
                &&& run.len() == 2 * p
                &&& p > 0 && is_unauthorized(outcomes[p - 1])
                &&& forall|j: int| 0 <= j < p - 1 ==> !is_unauthorized(#[trigger] outcomes[j])
                &&& run.last() == RunActionView::Finish(false)
            }
            &&& (forall|j: int| 0 <= j < n ==> !is_unauthorized(#[trigger] outcomes[j])) ==> {
                &&& p == n
                &&& run == run.take(2 * n as int) + retries(retryable_files(outcomes.take(n as int)))
                    + seq![RunActionView::Finish(true)]
                &&& retryable_files(outcomes.take(n as int)).len() <= n
                &&& run.len() <= 3 * n + 1
            }
        }),
{
    lemma_first_pass_shape(fixtures, outcomes);
    let (acts, r) = first_pass(fixtures, outcomes);
    let run = expected_run(fixtures, outcomes);
    let p = pass_length(fixtures, outcomes);
    let n = fixtures.len();
    if r is Some {
        assert(Seq::<Seq<char>>::empty() + r->0 =~= r->0);
        assert(run =~= acts + retries(r->0) + seq![RunActionView::Finish(true)]);
        assert forall|j: int| 0 <= j < p implies run[2 * j] == RunActionView::Post(fixtures[j])
            && run[2 * j + 1] == after_post(outcomes[j]) by {
            assert(run[2 * j] == acts[2 * j]);
            assert(run[2 * j + 1] == acts[2 * j + 1]);
        }
        lemma_retryable_files_len(outcomes.take(n as int));
        assert(run.take(2 * n as int) =~= acts);
        if exists|j: int| 0 <= j < n && is_unauthorized(#[trigger] outcomes[j]) {
            let j = choose|j: int| 0 <= j < n && is_unauthorized(#[trigger] outcomes[j]);
            if j < p - 1 {
            } else {
                assert(j == p - 1);
            }
        }
    } else {
        assert(run == acts);
        assert(acts[2 * (p - 1) + 1] == after_post(outcomes[p - 1]));
        assert(outcomes[p - 1] == outcomes[(p - 1) as int]);
    }
}

proof fn lemma_retryable_files_len(outcomes: Seq<Result<FixtureResultView, ErroredView>>)
    ensures
        retryable_files(outcomes).len() <= outcomes.len(),
    decreases outcomes.len(),
{
    if outcomes.len() > 0 {
        lemma_retryable_files_len(outcomes.drop_first());
    }
}

/// The run of a scenario: with its fixtures in scenario order (its files in
/// their order, then the files of its readable directories sorted as one
/// list), the first pass posts first the scenario's files, in their order,
/// then the directory files in ascending order, stopping right after the first
/// unauthorized answer.
pub proof fn lemma_scenario_run(
    files: Seq<Seq<char>>,
    listings: Seq<Option<Vec<String>>>,
    fixtures: Seq<Seq<char>>,
    outcomes: Seq<Result<FixtureResultView, ErroredView>>,
)
    requires
        scenario_fixture_order(files, listings, fixtures),
        outcomes.len() >= fixtures.len(),
    ensures
        ({
            let run = expected_run(fixtures, outcomes);
            let p = pass_length(fixtures, outcomes);
            let found = fixtures.skip(files.len() as int);
            &&& forall|j: int|
                0 <= j < p && j < files.len() ==> run[2 * j] == RunActionView::Post(#[trigger] files[j])
            &&& forall|k: int|
                0 <= k && files.len() + k < p ==> run[2 * (files.len() + k)] == RunActionView::Post(
                    #[trigger] found[k],
                )
            &&& found.to_multiset() == found_fixtures(listings).to_multiset()
            &&& texts_sorted(found)
        }),
{
    lemma_run_steps(fixtures, outcomes);
    let p = pass_length(fixtures, outcomes);
    assert forall|j: int| 0 <= j < p && j < files.len() implies expected_run(fixtures, outcomes)[2
        * j] == RunActionView::Post(files[j]) by {
        assert(fixtures.take(files.len() as int)[j] == fixtures[j]);
    }
    let found = fixtures.skip(files.len() as int);
    assert forall|k: int| 0 <= k && files.len() + k < p implies expected_run(fixtures, outcomes)[2
        * (files.len() + k)] == RunActionView::Post(#[trigger] found[k]) by {
        assert(found[k] == fixtures[files.len() + k]);
    }
}

} // verus!
