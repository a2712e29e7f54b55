use vstd::prelude::*;

use crate::config::{scenario_views, texts, Scenario};

verus! {

/// What the web service serves from.
#[derive(Debug)]
pub struct ApiState {
    pub scenarios: Vec<Scenario>,
}

/// A request to execute the scenario of this label.
#[derive(Debug)]
pub struct ExecutionRequest {
    pub scenario: String,
}

/// The answer to an execution request.
#[derive(Debug)]
pub struct ExecutionResponse {
    pub scenario: String,
    pub execution_time: u64,
    pub errored: bool,
}

/// A copy of the strings.
fn copy_strings(strings: &Vec<String>) -> (copy: Vec<String>)
    ensures
        texts(copy@) == texts(strings@),
{
    let mut copy: Vec<String> = Vec::new();
    for i in 0..strings.len()
        invariant
            texts(copy@) =~= texts(strings@).take(i as int),
    {
        copy.push(strings[i].clone());
        assert(texts(strings@).take(i + 1) =~= texts(strings@).take(i as int).push(strings@[i as int]@));
    }
    assert(texts(strings@).take(strings.len() as int) =~= texts(strings@));
    copy
}

/// The scenarios that the service lists: those of its state, in their order.
pub fn list_scenarios(data: &ApiState) -> (scenarios: Vec<Scenario>)
    ensures
        scenario_views(scenarios@) == scenario_views(data.scenarios@),
{
    let mut scenarios: Vec<Scenario> = Vec::new();
    for i in 0..data.scenarios.len()
        invariant
            scenario_views(scenarios@) =~= scenario_views(data.scenarios@).take(i as int),
    {
        let source = &data.scenarios[i];
        let scenario = Scenario {
            label: source.label.clone(),
            files: copy_strings(&source.files),
            directories: copy_strings(&source.directories),
        };
        scenarios.push(scenario);
        assert(scenario_views(data.scenarios@).take(i + 1) =~= scenario_views(data.scenarios@).take(
            i as int,
        ).push(data.scenarios@[i as int]@));
    }
    assert(scenario_views(data.scenarios@).take(data.scenarios.len() as int) =~= scenario_views(
        data.scenarios@,
    ));
    scenarios
}

/// The answer to a request to execute a scenario: the scenario named, an
/// execution time of 20, and no error.
pub fn execute_scenario(execution_info: &ExecutionRequest, _data: &ApiState) -> (response:
    ExecutionResponse)
    ensures
        response.scenario@ == execution_info.scenario@,
        response.execution_time == 20,
        !response.errored,
{
    ExecutionResponse {
        scenario: execution_info.scenario.clone(),
        execution_time: 20,
        errored: false,
    }
}

} // verus!
