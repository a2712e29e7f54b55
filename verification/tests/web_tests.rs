use photofinish::config::Scenario;
use photofinish::web::{execute_scenario, list_scenarios, ApiState, ExecutionRequest};

#[test]
fn list_scenarios_gives_the_state_scenarios() {
    let state = ApiState {
        scenarios: vec![Scenario {
            label: "s".to_string(),
            files: vec!["f".to_string()],
            directories: vec!["d".to_string()],
        }],
    };
    let listed = list_scenarios(&state);
    assert_eq!(listed.len(), 1);
    assert_eq!(listed[0].label, "s");
    assert_eq!(listed[0].files, vec!["f"]);
    assert_eq!(listed[0].directories, vec!["d"]);
}

#[test]
fn execute_scenario_answers_with_fixed_time_and_no_error() {
    let state = ApiState { scenarios: vec![] };
    let response = execute_scenario(&ExecutionRequest { scenario: "x".to_string() }, &state);
    assert_eq!(response.scenario, "x");
    assert_eq!(response.execution_time, 20);
    assert!(!response.errored);
}
