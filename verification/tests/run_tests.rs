use photofinish::config::Scenario;
use photofinish::run::{
    action_report, post_outcome, post_report, scenario_fixtures, select_scenario, Errored,
    FixtureResult, FixtureRun, PostAttempt, RunAction,
};

/// Drives a run to its end, answering the n-th post with `statuses[n]`, and
/// gives the actions and how many requests (posts and retries) were made.
fn drive(fixtures: Vec<String>, statuses: &[u16]) -> (Vec<String>, usize, Option<bool>) {
    let mut run = FixtureRun::new(fixtures);
    let mut log = Vec::new();
    let mut requests = 0;
    let mut answered = 0;
    let mut action = run.advance();
    loop {
        match action {
            RunAction::Post(file) => {
                requests += 1;
                log.push(format!("post {}", file));
                let status = statuses[answered];
                answered += 1;
                let outcome = post_outcome(&file, PostAttempt::Responded { status });
                action = run.record_outcome(outcome);
            }
            RunAction::Pause(failure) => {
                log.push(match failure {
                    Some(Errored { file, reason }) => format!("pause after {}: {}", file, reason),
                    None => "pause".to_string(),
                });
                action = run.advance();
            }
            RunAction::Retry(file) => {
                requests += 1;
                log.push(format!("retry {}", file));
                action = run.advance();
            }
            RunAction::Finish(ok) => {
                log.push(format!("finish {}", ok));
                return (log, requests, run.outcome());
            }
        }
    }
}

#[test]
fn run_returns_err_for_non_existing_scenario() {
    assert_eq!(select_scenario(&vec![], &"missing-scenario".to_string()), None);
}

#[test]
fn run_posts_all_files_successfully() {
    let (log, requests, outcome) =
        drive(vec!["a.json".to_string(), "b.json".to_string()], &[202, 202]);
    assert_eq!(outcome, Some(true));
    assert_eq!(requests, 2);
    assert_eq!(log, vec!["post a.json", "pause", "post b.json", "pause", "finish true"]);
}

#[test]
fn run_stops_early_on_unauthorized() {
    let (log, requests, outcome) =
        drive(vec!["a.json".to_string(), "b.json".to_string()], &[401]);
    assert_eq!(outcome, Some(false));
    assert_eq!(requests, 1);
    assert_eq!(log, vec!["post a.json", "finish false"]);
}

#[test]
fn run_retries_retryable_fixtures() {
    let (log, requests, outcome) = drive(vec!["a.json".to_string()], &[400, 202]);
    assert_eq!(outcome, Some(true));
    assert_eq!(requests, 2);
    assert_eq!(log, vec!["post a.json", "pause", "retry a.json", "finish true"]);
}

#[test]
fn run_retries_in_answer_order_and_passes_over_skippable() {
    let files = vec!["a".to_string(), "b".to_string(), "c".to_string(), "d".to_string()];
    let (log, requests, outcome) = drive(files, &[404, 500, 422, 202]);
    assert_eq!(outcome, Some(true));
    assert_eq!(requests, 6);
    assert_eq!(
        log,
        vec![
            "post a", "pause", "post b", "pause", "post c", "pause", "post d", "pause",
            "retry a", "retry c", "finish true"
        ]
    );
}

#[test]
fn run_of_no_fixtures_finishes_at_once() {
    let (log, requests, outcome) = drive(vec![], &[]);
    assert_eq!(outcome, Some(true));
    assert_eq!(requests, 0);
    assert_eq!(log, vec!["finish true"]);
}

#[test]
fn finished_run_stays_finished() {
    let mut run = FixtureRun::new(vec!["a".to_string()]);
    assert!(matches!(run.advance(), RunAction::Post(_)));
    assert!(run.awaiting_outcome());
    assert!(matches!(run.record_outcome(Ok(FixtureResult::Unauthorized)), RunAction::Finish(false)));
    assert!(!run.awaiting_outcome());
    assert!(matches!(run.advance(), RunAction::Finish(false)));
    assert!(matches!(run.advance(), RunAction::Finish(false)));
}

#[test]
fn run_reports_a_failed_post_and_goes_on() {
    let mut run = FixtureRun::new(vec!["a".to_string(), "b".to_string()]);
    assert!(matches!(run.advance(), RunAction::Post(f) if f == "a"));
    let failed = post_outcome(&"a".to_string(), PostAttempt::Unreadable);
    match run.record_outcome(failed) {
        RunAction::Pause(Some(Errored { file, reason })) => {
            assert_eq!(file, "a");
            assert_eq!(reason, "Couldn't read file");
        }
        other => panic!("expected a pause with a failure, got {:?}", other),
    }
    assert!(matches!(run.advance(), RunAction::Post(f) if f == "b"));
    assert!(matches!(run.record_outcome(Ok(FixtureResult::Success)), RunAction::Pause(None)));
    assert!(matches!(run.advance(), RunAction::Finish(true)));
}

#[test]
fn post_fixture_returns_success_on_202() {
    let result = post_outcome(&"fixture.json".to_string(), PostAttempt::Responded { status: 202 });
    assert!(matches!(result, Ok(FixtureResult::Success)));
}

#[test]
fn post_fixture_returns_unauthorized_on_401() {
    let result = post_outcome(&"fixture.json".to_string(), PostAttempt::Responded { status: 401 });
    assert!(matches!(result, Ok(FixtureResult::Unauthorized)));
}

#[test]
fn post_fixture_returns_retryable_on_400() {
    let file = "fixture.json".to_string();
    match post_outcome(&file, PostAttempt::Responded { status: 400 }) {
        Ok(FixtureResult::Retryable { file: retried_file }) => assert_eq!(retried_file, file),
        other => panic!("expected Retryable, got {:?}", other),
    }
}

#[test]
fn post_outcome_is_retryable_on_404_and_422() {
    for status in [404u16, 422] {
        assert!(matches!(
            post_outcome(&"f".to_string(), PostAttempt::Responded { status }),
            Ok(FixtureResult::Retryable { .. })
        ));
    }
}

#[test]
fn post_fixture_returns_skippable_on_unexpected_status() {
    for status in [500u16, 200, 201, 403] {
        let result = post_outcome(&"fixture.json".to_string(), PostAttempt::Responded { status });
        assert!(matches!(result, Ok(FixtureResult::Skippable)));
    }
}

#[test]
fn post_fixture_errors_when_file_is_missing() {
    let missing_file = "photofinish_test_post_fixture_missing_file.json".to_string();
    match post_outcome(&missing_file, PostAttempt::Unreadable) {
        Err(Errored { file, reason }) => {
            assert_eq!(file, missing_file);
            assert_eq!(reason, "Couldn't read file");
        }
        Ok(_) => panic!("expected an error for a missing file"),
    }
}

#[test]
fn post_fixture_errors_when_the_server_is_unreachable() {
    let file = "fixture.json".to_string();
    match post_outcome(&file, PostAttempt::SendFailed { reason: "connection refused".to_string() }) {
        Err(Errored { file: errored_file, reason }) => {
            assert_eq!(errored_file, file);
            assert_eq!(reason, "connection refused");
        }
        Ok(_) => panic!("expected an error for an unreachable server"),
    }
}

#[test]
fn select_scenario_finds_the_first_matching_label() {
    let make = |label: &str| Scenario { label: label.to_string(), files: vec![], directories: vec![] };
    let scenarios = vec![make("x"), make("my-scenario"), make("my-scenario")];
    assert_eq!(select_scenario(&scenarios, &"my-scenario".to_string()), Some(1));
    assert_eq!(select_scenario(&scenarios, &"y".to_string()), None);
}

#[test]
fn scenario_fixtures_put_files_first_then_sorted_directory_files() {
    let files = vec!["z.json".to_string(), "a.json".to_string()];
    let listings = vec![
        Some(vec!["dir1/b.json".to_string(), "dir1/a.json".to_string()]),
        None,
        Some(vec!["dir0/c.json".to_string()]),
    ];
    assert_eq!(
        scenario_fixtures(&files, listings),
        vec!["z.json", "a.json", "dir0/c.json", "dir1/a.json", "dir1/b.json"]
    );
}

#[test]
fn scenario_fixtures_without_directories_are_the_files() {
    let files = vec!["b".to_string(), "a".to_string()];
    assert_eq!(scenario_fixtures(&files, vec![]), vec!["b", "a"]);
    assert_eq!(scenario_fixtures(&files, vec![None]), vec!["b", "a"]);
}

#[test]
fn post_report_gives_the_line_for_each_answer() {
    let file = "f.json".to_string();
    let line = |attempt: PostAttempt, status_text: &str| post_report(&file, &attempt, status_text);
    assert_eq!(
        line(PostAttempt::Responded { status: 202 }, "202 Accepted"),
        Some("Successfully POSTed file: f.json".to_string())
    );
    assert_eq!(
        line(PostAttempt::Responded { status: 401 }, "401 Unauthorized"),
        Some("POST request unauthorized. Set the correct API_KEY as argument".to_string())
    );
    assert_eq!(line(PostAttempt::Responded { status: 400 }, "400 Bad Request"), None);
    assert_eq!(line(PostAttempt::Responded { status: 404 }, "404 Not Found"), None);
    assert_eq!(
        line(PostAttempt::Responded { status: 500 }, "500 Internal Server Error"),
        Some("Unexpected status code 500 Internal Server Error while POSTing fixture: f.json".to_string())
    );
    assert_eq!(line(PostAttempt::Unreadable, ""), Some("Couldn't read file: f.json".to_string()));
    assert_eq!(
        line(PostAttempt::SendFailed { reason: "refused".to_string() }, ""),
        Some("Error while POSTing fixture: f.json".to_string())
    );
}

#[test]
fn action_report_gives_the_line_for_each_action() {
    let failure = Errored { file: "x".to_string(), reason: "Couldn't read file".to_string() };
    assert_eq!(
        action_report(&RunAction::Pause(Some(failure))),
        Some("An error occurred in loading fixture x: Couldn't read file".to_string())
    );
    assert_eq!(action_report(&RunAction::Pause(None)), None);
    assert_eq!(action_report(&RunAction::Retry("y".to_string())), Some("Retrying: y".to_string()));
    assert_eq!(action_report(&RunAction::Post("z".to_string())), None);
    assert_eq!(action_report(&RunAction::Finish(true)), None);
}

#[test]
fn run_for_scenario_posts_files_then_sorted_directory_files() {
    let scenario = Scenario {
        label: "s".to_string(),
        files: vec!["z".to_string(), "a".to_string()],
        directories: vec!["d1".to_string(), "d2".to_string()],
    };
    let listings = vec![Some(vec!["d1/y".to_string(), "d1/b".to_string()]), None];
    let mut run = FixtureRun::for_scenario(&scenario, listings);
    let mut posted = Vec::new();
    let mut action = run.advance();
    while let RunAction::Post(file) = action {
        posted.push(file);
        run.record_outcome(Ok(FixtureResult::Success));
        action = run.advance();
    }
    assert_eq!(posted, vec!["z", "a", "d1/b", "d1/y"]);
    assert!(matches!(action, RunAction::Finish(true)));
}
