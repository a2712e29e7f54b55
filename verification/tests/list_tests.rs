use photofinish::config::Scenario;
use photofinish::list::{print_scenario, show_list};

#[test]
fn show_list_handles_no_scenarios() {
    assert_eq!(show_list(&[]), "");
}

#[test]
fn show_list_handles_scenarios_with_files_and_directories() {
    let text = show_list(&[Scenario {
        label: "my-scenario".to_string(),
        files: vec!["a.json".to_string(), "b.json".to_string()],
        directories: vec!["some/dir".to_string()],
    }]);
    assert_eq!(
        text,
        "NAME: my-scenario\nFILES:\na.json\nb.json\nDIRECTORIES:\nsome/dir\n\n"
    );
}

#[test]
fn print_scenario_handles_empty_files_and_directories() {
    let text = print_scenario(&Scenario {
        label: "empty-scenario".to_string(),
        files: vec![],
        directories: vec![],
    });
    assert_eq!(text, "NAME: empty-scenario\nFILES:\n\nDIRECTORIES:\n\n\n");
}

#[test]
fn show_list_lists_scenarios_one_after_the_other() {
    let first = Scenario {
        label: "one".to_string(),
        files: vec!["f".to_string()],
        directories: vec![],
    };
    let second = Scenario {
        label: "two".to_string(),
        files: vec![],
        directories: vec!["d1".to_string(), "d2".to_string()],
    };
    let expected = format!("{}{}", print_scenario(&first), print_scenario(&second));
    assert_eq!(show_list(&[first, second]), expected);
    assert_eq!(
        expected,
        "NAME: one\nFILES:\nf\nDIRECTORIES:\n\n\nNAME: two\nFILES:\n\nDIRECTORIES:\nd1\nd2\n\n"
    );
}
