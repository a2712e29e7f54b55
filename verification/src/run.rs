use vstd::prelude::*;
use vstd::string::*;

use crate::config::{texts, Scenario};
use crate::toml_model::text_lt;

verus! {

/// How the endpoint answered the post of a fixture.
#[derive(Debug)]
pub enum FixtureResult {
    /// Accepted (202).
    Success,
    /// Refused in a way worth a second try (400, 404, 422); names the file.
    Retryable { file: String },
    /// Any other answer; the fixture is passed over.
    Skippable,
    /// Refused for a wrong API key (401); the run stops.
    Unauthorized,
}

/// A fixture that could not be posted at all, and why.
#[derive(Debug)]
pub struct Errored {
    pub file: String,
    pub reason: String,
}

/// The mathematical model of a `FixtureResult`.
pub enum FixtureResultView {
    Success,
    Retryable(Seq<char>),
    Skippable,
    Unauthorized,
}

/// The mathematical model of an `Errored`.
pub struct ErroredView {
    pub file: Seq<char>,
    pub reason: Seq<char>,
}

impl View for FixtureResult {
    type V = FixtureResultView;

    open spec fn view(&self) -> FixtureResultView {
        match self {
            FixtureResult::Success => FixtureResultView::Success,
            FixtureResult::Retryable { file } => FixtureResultView::Retryable(file@),
            FixtureResult::Skippable => FixtureResultView::Skippable,
            FixtureResult::Unauthorized => FixtureResultView::Unauthorized,
        }
    }
}

impl View for Errored {
    type V = ErroredView;

    open spec fn view(&self) -> ErroredView {
        ErroredView { file: self.file@, reason: self.reason@ }
    }
}

/// The model of the outcome of posting a fixture.
pub open spec fn outcome_view(outcome: Result<FixtureResult, Errored>) -> Result<
    FixtureResultView,
    ErroredView,
> {
    match outcome {
        Ok(result) => Ok(result@),
        Err(errored) => Err(errored@),
    }
}

/// What an attempt to post a fixture met.
#[derive(Debug)]
pub enum PostAttempt {
    /// The fixture file could not be read.
    Unreadable,
    /// The request could not be sent; the reason is the client's.
    SendFailed { reason: String },
    /// The endpoint answered with this status code.
    Responded { status: u16 },
}

/// The statuses after which a fixture is posted once more at the end of the run.
pub open spec fn retryable_status(status: u16) -> bool {
    status == 400 || status == 404 || status == 422
}

/// The result of an answer with status `status` to the post of `file`.
pub open spec fn result_of_status(file: Seq<char>, status: u16) -> FixtureResultView {
    if status == 202 {
        FixtureResultView::Success
    } else if status == 401 {
        FixtureResultView::Unauthorized
    } else if retryable_status(status) {
        FixtureResultView::Retryable(file)
    } else {
        FixtureResultView::Skippable
    }
}

/// Classifies what an attempt to post `file` met: a fixture that could not be
/// read or sent is an error naming the file and the reason; an answer is
/// classified by its status.
pub fn post_outcome(file: &String, attempt: PostAttempt) -> (outcome: Result<FixtureResult, Errored>)
    ensures
        attempt is Unreadable ==> (outcome matches Err(e) && e.file@ == file@ && e.reason@
            == "Couldn't read file"@),
        attempt matches PostAttempt::SendFailed { reason } ==> (outcome matches Err(e) && e.file@
            == file@ && e.reason@ == reason@),
        attempt matches PostAttempt::Responded { status } ==> (outcome matches Ok(result)
            && result@ == result_of_status(file@, status)),
{
    match attempt {
        PostAttempt::Unreadable => Err(
            Errored { file: file.clone(), reason: String::from_str("Couldn't read file") },
        ),
        PostAttempt::SendFailed { reason } => Err(Errored { file: file.clone(), reason }),
        PostAttempt::Responded { status } => {
            if status == 202 {
                Ok(FixtureResult::Success)
            } else if status == 401 {
                Ok(FixtureResult::Unauthorized)
            } else if status == 400 || status == 404 || status == 422 {
                Ok(FixtureResult::Retryable { file: file.clone() })
            } else {
                Ok(FixtureResult::Skippable)
            }
        },
    }
}

/// An answer is classified by its status code alone: 202 is a success, 401
/// (and only 401) stops the run as unauthorized, 400, 404 and 422 make the
/// posted file retryable, and every other status is passed over.
pub proof fn lemma_status_classes(file: Seq<char>, status: u16)
    ensures
        result_of_status(file, status) == FixtureResultView::Success <==> status == 202,
        result_of_status(file, status) == FixtureResultView::Unauthorized <==> status == 401,
        result_of_status(file, status) is Retryable <==> (status == 400 || status == 404 || status
            == 422),
        result_of_status(file, status) is Retryable ==> result_of_status(file, status)->Retryable_0
            == file,
        result_of_status(file, status) == FixtureResultView::Skippable <==> !(status == 202 || status
            == 401 || status == 400 || status == 404 || status == 422),
{
}

/// The index of the first scenario labelled `label`, if any.
pub fn select_scenario(scenarios: &Vec<Scenario>, label: &String) -> (index: Option<usize>)
    ensures
        index matches Some(i) ==> (i < scenarios@.len() && scenarios@[i as int].label@ == label@
            && forall|j: int| 0 <= j < i ==> (#[trigger] scenarios@[j]).label@ != label@),
        index is None ==> forall|j: int|
            0 <= j < scenarios@.len() ==> (#[trigger] scenarios@[j]).label@ != label@,
{
    for i in 0..scenarios.len()
        invariant
            forall|j: int| 0 <= j < i ==> (#[trigger] scenarios@[j]).label@ != label@,
    {
        if scenarios[i].label == *label {
            return Some(i);
        }
    }
    None
}

/// The texts of the listings that could be read, one after the other.
pub open spec fn found_fixtures(listings: Seq<Option<Vec<String>>>) -> Seq<Seq<char>>
    decreases listings.len(),
{
    if listings.len() == 0 {
        Seq::empty()
    } else {
        found_fixtures(listings.drop_last()) + match listings.last() {
            Some(files) => texts(files@),
            None => Seq::empty(),
        }
    }
}

/// The texts are in ascending order (equal texts may repeat).
pub open spec fn texts_sorted(s: Seq<Seq<char>>) -> bool {
    forall|i: int, j: int| 0 <= i < j < s.len() ==> !text_lt(#[trigger] s[j], #[trigger] s[i])
}

/// Calls `slice::sort` on the strings. Claimed of it, as std documents it: the
/// strings afterwards are the same strings, rearranged into ascending order
/// (strings compare lexicographically).
#[verifier::external_body]
fn sort_strings(strings: &mut Vec<String>)
    ensures
        texts(final(strings)@).to_multiset() == texts(old(strings)@).to_multiset(),
        texts_sorted(texts(final(strings)@)),
{
    strings.sort();
}

/// `fixtures` are the files in their order, then the files of the listings
/// that could be read, all of them, sorted as one list.
pub open spec fn scenario_fixture_order(
    files: Seq<Seq<char>>,
    listings: Seq<Option<Vec<String>>>,
    fixtures: Seq<Seq<char>>,
) -> bool {
    &&& fixtures.len() >= files.len()
    &&& fixtures.take(files.len() as int) == files
    &&& fixtures.skip(files.len() as int).to_multiset() == found_fixtures(listings).to_multiset()
    &&& texts_sorted(fixtures.skip(files.len() as int))
}

/// How often `text` is among the files of one listing (never, for one that
/// could not be read).
pub open spec fn listing_count(listing: Option<Vec<String>>, text: Seq<char>) -> nat {
    match listing {
        Some(files) => texts(files@).to_multiset().count(text),
        None => 0,
    }
}

/// How often `text` is among the files of all the listings, added up.
pub open spec fn listed_count(listings: Seq<Option<Vec<String>>>, text: Seq<char>) -> nat
    decreases listings.len(),
{
    if listings.len() == 0 {
        0
    } else {
        listing_count(listings[0], text) + listed_count(listings.drop_first(), text)
    }
}

proof fn lemma_listed_count_last(listings: Seq<Option<Vec<String>>>, text: Seq<char>)
    requires
        listings.len() > 0,
    ensures
        listed_count(listings, text) == listed_count(listings.drop_last(), text) + listing_count(
            listings.last(),
            text,
        ),
    decreases listings.len(),
{
    if listings.len() > 1 {
        let rest = listings.drop_first();
        lemma_listed_count_last(rest, text);
        assert(rest.drop_last() =~= listings.drop_last().drop_first());
        assert(rest.last() == listings.last());
        assert(listings.drop_last()[0] == listings[0]);
    } else {
        assert(listings.drop_first() =~= Seq::<Option<Vec<String>>>::empty());
        assert(listings.drop_last() =~= Seq::<Option<Vec<String>>>::empty());
    }
}

proof fn lemma_listed_count_at(listings: Seq<Option<Vec<String>>>, text: Seq<char>, k: int)
    requires
        0 <= k < listings.len(),
    ensures
        listed_count(listings, text) >= listing_count(listings[k], text),
    decreases listings.len(),
{
    if k > 0 {
        lemma_listed_count_at(listings.drop_first(), text, k - 1);
        assert(listings.drop_first()[k - 1] == listings[k]);
    }
}

proof fn lemma_found_count(listings: Seq<Option<Vec<String>>>, text: Seq<char>)
    ensures
        found_fixtures(listings).to_multiset().count(text) == listed_count(listings, text),
    decreases listings.len(),
{
    broadcast use vstd::seq_lib::lemma_multiset_commutative;
    broadcast use vstd::multiset::group_multiset_axioms;

    if listings.len() > 0 {
        lemma_found_count(listings.drop_last(), text);
        lemma_listed_count_last(listings, text);
        let last_texts = match listings.last() {
            Some(files) => texts(files@),
            None => Seq::<Seq<char>>::empty(),
        };
        assert(found_fixtures(listings) == found_fixtures(listings.drop_last()) + last_texts);
        assert(listing_count(listings.last(), text) == last_texts.to_multiset().count(text));
        vstd::seq_lib::lemma_multiset_commutative(found_fixtures(listings.drop_last()), last_texts);
        assert(found_fixtures(listings).to_multiset().count(text) == found_fixtures(
            listings.drop_last(),
        ).to_multiset().count(text) + last_texts.to_multiset().count(text));
    } else {
        assert(found_fixtures(listings) =~= Seq::<Seq<char>>::empty());
        broadcast use vstd::seq_lib::group_to_multiset_ensures;
        assert(!found_fixtures(listings).contains(text));
    }
}

/// The fixtures of a scenario leave no readable directory out and add nothing:
/// after the scenario's files, in their order, come the files of every listing
/// that could be read, each file as often as the listings hold it together,
/// sorted as one list.
pub proof fn lemma_scenario_fixtures_complete(
    files: Seq<Seq<char>>,
    listings: Seq<Option<Vec<String>>>,
    fixtures: Seq<Seq<char>>,
)
    requires
        scenario_fixture_order(files, listings, fixtures),
    ensures
        fixtures.take(files.len() as int) == files,
        forall|text: Seq<char>|
            #[trigger] fixtures.skip(files.len() as int).to_multiset().count(text) == listed_count(
                listings,
                text,
            ),
        forall|k: int, m: int|
            0 <= k < listings.len() && listings[k] is Some && 0 <= m < listings[k]->0@.len()
                ==> fixtures.skip(files.len() as int).contains(#[trigger] listings[k]->0@[m]@),
        texts_sorted(fixtures.skip(files.len() as int)),
{
    broadcast use vstd::seq_lib::group_to_multiset_ensures;

    let tail = fixtures.skip(files.len() as int);
    assert forall|text: Seq<char>| #[trigger] tail.to_multiset().count(text) == listed_count(
        listings,
        text,
    ) by {
        lemma_found_count(listings, text);
    }
    assert forall|k: int, m: int|
        0 <= k < listings.len() && listings[k] is Some && 0 <= m < listings[k]->0@.len()
            implies tail.contains(#[trigger] listings[k]->0@[m]@) by {
        let fs = listings[k]->0;
        let text = fs@[m]@;
        assert(texts(fs@)[m] == text);
        assert(texts(fs@).to_multiset().count(text) > 0);
        lemma_listed_count_at(listings, text, k);
        lemma_found_count(listings, text);
        assert(tail.to_multiset().count(text) > 0);
    }
}

/// The fixtures of a scenario: its files in their order, then the files found
/// in its directories (those listings that could be read), sorted.
pub fn scenario_fixtures(files: &Vec<String>, listings: Vec<Option<Vec<String>>>) -> (fixtures: Vec<
    String,
>)
    ensures
        scenario_fixture_order(texts(files@), listings@, texts(fixtures@)),
{
    let mut found: Vec<String> = Vec::new();
    let mut listings = listings;
    let ghost all = listings@;
    let mut i: usize = 0;
    let n = listings.len();
    while i < n
        invariant
            n == all.len(),
            i <= n,
            listings@.len() == n,
            forall|j: int| i <= j < n ==> (#[trigger] listings@[j]) == all[j],
            texts(found@) =~= found_fixtures(all.take(i as int)),
        decreases n - i,
    {
        let mut listing: Option<Vec<String>> = None;
        std::mem::swap(&mut listing, &mut listings[i]);
        assert(all.take(i + 1).drop_last() =~= all.take(i as int));
        match listing {
            Some(mut more) => {
                let ghost before = found@;
                let ghost more_view = more@;
                found.append(&mut more);
                assert(texts(found@) =~= texts(before) + texts(more_view));
            },
            None => {},
        }
        i += 1;
    }
    assert(all.take(n as int) =~= all);
    sort_strings(&mut found);
    let mut fixtures: Vec<String> = Vec::new();
    for k in 0..files.len()
        invariant
            texts(fixtures@) =~= texts(files@).take(k as int),
    {
        fixtures.push(files[k].clone());
        assert(texts(files@).take(k + 1) =~= texts(files@).take(k as int).push(files@[k as int]@));
    }
    let ghost head = fixtures@;
    let ghost tail = found@;
    fixtures.append(&mut found);
    assert(texts(fixtures@) =~= texts(head) + texts(tail));
    assert(texts(files@).take(files@.len() as int) =~= texts(files@));
    assert(texts(fixtures@).take(files@.len() as int) =~= texts(files@));
    assert(texts(fixtures@).skip(files@.len() as int) =~= texts(tail));
    fixtures
}

/// What the runner asks the caller to do next.
#[derive(Debug)]
pub enum RunAction {
    /// Post this fixture, then hand its outcome to `record_outcome`.
    Post(String),
    /// Report the failure, if any, then wait the interval between requests.
    Pause(Option<Errored>),
    /// Announce and post this retryable fixture once more; its outcome is not
    /// looked at.
    Retry(String),
    /// The run is over: `true` for success, `false` when it stopped on an
    /// unauthorized answer.
    Finish(bool),
}

/// The mathematical model of a `RunAction`.
pub enum RunActionView {
    Post(Seq<char>),
    Pause(Option<ErroredView>),
    Retry(Seq<char>),
    Finish(bool),
}

impl View for RunAction {
    type V = RunActionView;

    open spec fn view(&self) -> RunActionView {
        match self {
            RunAction::Post(file) => RunActionView::Post(file@),
            RunAction::Pause(failure) => RunActionView::Pause(
                match failure {
                    Some(e) => Some(e@),
                    None => None,
                },
            ),
            RunAction::Retry(file) => RunActionView::Retry(file@),
            RunAction::Finish(ok) => RunActionView::Finish(*ok),
        }
    }
}

/// The state of a run over the fixtures of a scenario: the first pass posts
/// each fixture in turn, pausing after each; an unauthorized answer ends the
/// run at once; the retryable fixtures are posted once more at the end.
#[derive(Debug)]
pub struct FixtureRun {
    fixtures: Vec<String>,
    posted: usize,
    retryable: Vec<String>,
    retried: usize,
    awaiting: bool,
    finished: Option<bool>,
}

/// The mathematical model of a `FixtureRun`.
pub struct RunState {
    /// The fixtures of the first pass, in order.
    pub fixtures: Seq<Seq<char>>,
    /// How many of them have been handed out for posting.
    pub posted: nat,
    /// The files answered as retryable so far, in order.
    pub retryable: Seq<Seq<char>>,
    /// How many of them have been handed out for retrying.
    pub retried: nat,
    /// A fixture has been handed out and its outcome is not yet recorded.
    pub awaiting: bool,
    /// The run is over, with this success.
    pub finished: Option<bool>,
}

impl View for FixtureRun {
    type V = RunState;

    closed spec fn view(&self) -> RunState {
        RunState {
            fixtures: texts(self.fixtures@),
            posted: self.posted as nat,
            retryable: texts(self.retryable@),
            retried: self.retried as nat,
            awaiting: self.awaiting,
            finished: self.finished,
        }
    }
}

/// The states a run can be in.
pub open spec fn run_state_wf(s: RunState) -> bool {
    &&& s.posted <= s.fixtures.len()
    &&& s.retried <= s.retryable.len()
    &&& s.awaiting ==> s.finished is None && s.posted >= 1 && s.retried == 0
    &&& s.retried > 0 ==> s.posted == s.fixtures.len()
    &&& s.retryable.len() + (if s.awaiting { 1int } else { 0int }) <= s.posted
}

/// The state of a run that has not started.
pub open spec fn initial_run(fixtures: Seq<Seq<char>>) -> RunState {
    RunState {
        fixtures,
        posted: 0,
        retryable: Seq::empty(),
        retried: 0,
        awaiting: false,
        finished: None,
    }
}

/// The next step of a run that awaits no outcome: finished, it finishes again;
/// else it hands out the next fixture of the first pass, or else the next
/// retryable fixture, or else it finishes with success.
pub open spec fn run_advance(s: RunState) -> (RunState, RunActionView) {
    if s.finished is Some {
        (s, RunActionView::Finish(s.finished->0))
    } else if s.posted < s.fixtures.len() {
        (
            RunState { posted: s.posted + 1, awaiting: true, ..s },
            RunActionView::Post(s.fixtures[s.posted as int]),
        )
    } else if s.retried < s.retryable.len() {
        (RunState { retried: s.retried + 1, ..s }, RunActionView::Retry(s.retryable[s.retried as int]))
    } else {
        (RunState { finished: Some(true), ..s }, RunActionView::Finish(true))
    }
}

/// The step of a run on the outcome of the fixture it handed out: an
/// unauthorized answer finishes it with failure; otherwise it pauses,
/// reporting a failure to post, and remembers a retryable file.
pub open spec fn run_record(s: RunState, outcome: Result<FixtureResultView, ErroredView>) -> (
    RunState,
    RunActionView,
) {
    match outcome {
        Ok(FixtureResultView::Unauthorized) => (
            RunState { awaiting: false, finished: Some(false), ..s },
            RunActionView::Finish(false),
        ),
        Ok(FixtureResultView::Retryable(file)) => (
            RunState { awaiting: false, retryable: s.retryable.push(file), ..s },
            RunActionView::Pause(None),
        ),
        Ok(_) => (RunState { awaiting: false, ..s }, RunActionView::Pause(None)),
        Err(e) => (RunState { awaiting: false, ..s }, RunActionView::Pause(Some(e))),
    }
}

impl FixtureRun {
    /// The well-formedness of a run, kept by every step.
    pub closed spec fn wf(&self) -> bool {
        run_state_wf(self@)
    }

    /// The run of a scenario, not started: over its files in their order, then
    /// the files found in its directories (the listings that could be read, in
    /// the order of its directories), sorted.
    pub fn for_scenario(scenario: &Scenario, listings: Vec<Option<Vec<String>>>) -> (run: FixtureRun)
        ensures
            run.wf(),
            run@ == initial_run(run@.fixtures),
            scenario_fixture_order(scenario@.files, listings@, run@.fixtures),
    {
        FixtureRun::new(scenario_fixtures(&scenario.files, listings))
    }

    /// A run over these fixtures, not started.
    pub fn new(fixtures: Vec<String>) -> (run: FixtureRun)
        ensures
            run.wf(),
            run@ == initial_run(texts(fixtures@)),
    {
        let run = FixtureRun {
            fixtures,
            posted: 0,
            retryable: Vec::new(),
            retried: 0,
            awaiting: false,
            finished: None,
        };
        assert(texts(run.retryable@) =~= Seq::<Seq<char>>::empty());
        run
    }

    /// Whether a fixture has been handed out whose outcome is not yet recorded.
    pub fn awaiting_outcome(&self) -> (awaiting: bool)
        ensures
            awaiting == self@.awaiting,
    {
        self.awaiting
    }

    /// Whether the run is over, and with which success.
    pub fn outcome(&self) -> (finished: Option<bool>)
        ensures
            finished == self@.finished,
    {
        self.finished
    }

    /// The next step of a run that awaits no outcome (see `run_advance`).
    pub fn advance(&mut self) -> (action: RunAction)
        requires
            old(self).wf(),
            !old(self)@.awaiting,
        ensures
            final(self).wf(),
            (final(self)@, action@) == run_advance(old(self)@),
    {
        if let Some(ok) = self.finished {
            return RunAction::Finish(ok);
        }
        if self.posted < self.fixtures.len() {
            let file = self.fixtures[self.posted].clone();
            self.posted = self.posted + 1;
            self.awaiting = true;
            return RunAction::Post(file);
        }
        if self.retried < self.retryable.len() {
            let file = self.retryable[self.retried].clone();
            self.retried = self.retried + 1;
            return RunAction::Retry(file);
        }
        self.finished = Some(true);
        RunAction::Finish(true)
    }

    /// The step on the outcome of the fixture handed out (see `run_record`).
    pub fn record_outcome(&mut self, outcome: Result<FixtureResult, Errored>) -> (action: RunAction)
        requires
            old(self).wf(),
            old(self)@.awaiting,
        ensures
            final(self).wf(),
            (final(self)@, action@) == run_record(old(self)@, outcome_view(outcome)),
    {
        self.awaiting = false;
        match outcome {
            Ok(FixtureResult::Unauthorized) => {
                self.finished = Some(false);
                RunAction::Finish(false)
            },
            Ok(FixtureResult::Retryable { file }) => {
                let ghost before = self.retryable@;
                self.retryable.push(file);
                assert(texts(self.retryable@) =~= texts(before).push(file@));
                RunAction::Pause(None)
            },
            Ok(_) => RunAction::Pause(None),
            Err(e) => RunAction::Pause(Some(e)),
        }
    }
}

/// The line printed about an attempt to post `file`, if any: success, an
/// unauthorized answer, an unexpected status (shown as `status_text`), an
/// unreadable file or a failed request; nothing for a retryable answer.
pub open spec fn post_report_text(file: Seq<char>, attempt: PostAttempt, status_text: Seq<char>) -> Option<
    Seq<char>,
> {
    match attempt {
        PostAttempt::Unreadable => Some("Couldn't read file: "@ + file),
        PostAttempt::SendFailed { .. } => Some("Error while POSTing fixture: "@ + file),
        PostAttempt::Responded { status } => match result_of_status(file, status) {
            FixtureResultView::Success => Some("Successfully POSTed file: "@ + file),
            FixtureResultView::Unauthorized => Some(
                "POST request unauthorized. Set the correct API_KEY as argument"@,
            ),
            FixtureResultView::Retryable(_) => None,
            FixtureResultView::Skippable => Some(
                "Unexpected status code "@ + status_text + " while POSTing fixture: "@ + file,
            ),
        },
    }
}

/// A line is printed about every attempt but those answered with a retryable
/// status (400, 404, 422): always for an unreadable file or a failed request.
pub proof fn lemma_post_report_silence(file: Seq<char>, attempt: PostAttempt, status_text: Seq<char>)
    ensures
        post_report_text(file, attempt, status_text) is None <==> (attempt matches PostAttempt::Responded {
            status,
        } && (status == 400 || status == 404 || status == 422)),
{
}

/// The line printed about an attempt to post `file` (see `post_report_text`);
/// `status_text` is how the answer's status is shown.
pub fn post_report(file: &String, attempt: &PostAttempt, status_text: &str) -> (report: Option<String>)
    ensures
        report matches Some(r) ==> post_report_text(file@, *attempt, status_text@) == Some(r@),
        report is None ==> post_report_text(file@, *attempt, status_text@) is None,
{
    let mut line = String::new();
    match attempt {
        PostAttempt::Unreadable => {
            line.append("Couldn't read file: ");
            line.append(file.as_str());
        },
        PostAttempt::SendFailed { .. } => {
            line.append("Error while POSTing fixture: ");
            line.append(file.as_str());
        },
        PostAttempt::Responded { status } => {
            let status = *status;
            if status == 202 {
                line.append("Successfully POSTed file: ");
                line.append(file.as_str());
            } else if status == 401 {
                line.append("POST request unauthorized. Set the correct API_KEY as argument");
            } else if status == 400 || status == 404 || status == 422 {
                return None;
            } else {
                line.append("Unexpected status code ");
                line.append(status_text);
                line.append(" while POSTing fixture: ");
                line.append(file.as_str());
            }
        },
    }
    Some(line)
}

/// The line printed for an action, if any: the failure a pause reports, or the
/// announcement of a retry.
pub open spec fn action_report_text(action: RunActionView) -> Option<Seq<char>> {
    match action {
        RunActionView::Pause(Some(e)) => Some(
            "An error occurred in loading fixture "@ + e.file + ": "@ + e.reason,
        ),
        RunActionView::Retry(file) => Some("Retrying: "@ + file),
        _ => None,
    }
}

/// The line printed for an action (see `action_report_text`).
pub fn action_report(action: &RunAction) -> (report: Option<String>)
    ensures
        report matches Some(r) ==> action_report_text(action@) == Some(r@),
        report is None ==> action_report_text(action@) is None,
{
    match action {
        RunAction::Pause(Some(e)) => {
            let mut line = String::new();
            line.append("An error occurred in loading fixture ");
            line.append(e.file.as_str());
            line.append(": ");
            line.append(e.reason.as_str());
            Some(line)
        },
        RunAction::Retry(file) => {
            let mut line = String::new();
            line.append("Retrying: ");
            line.append(file.as_str());
            Some(line)
        },
        _ => None,
    }
}

} // verus!
