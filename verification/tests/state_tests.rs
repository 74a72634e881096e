use reaper::RprError;
use reaper::state::{Action, Command, Inputs, State, TaskOutcome, dispatch_plan, verbosity_level};

fn plain_inputs() -> Inputs {
    Inputs { config: None, init: false, verbosity: 0, quiet: false }
}

#[test]
fn action_builder_fixes_cmd_priority_and_args() {
    let t = Action::new("x".to_string())
        .priority(5)
        .with_arg("a".to_string())
        .with_args(vec!["b".to_string(), "c".to_string()])
        .ready();
    assert_eq!(t.cmd().as_str(), "x");
    assert_eq!(t.priority(), Some(5));
    let args: Vec<&str> = t.args().iter().map(|a| a.as_str()).collect();
    assert_eq!(args, vec!["a", "b", "c"]);
}

#[test]
fn action_priority_overwrites_and_args_append() {
    let t = Action::new("y".to_string())
        .priority(9)
        .priority(2)
        .with_arg("first".to_string())
        .with_arg("second".to_string())
        .ready();
    assert_eq!(t.priority(), Some(2));
    let args: Vec<&str> = t.args().iter().map(|a| a.as_str()).collect();
    assert_eq!(args, vec!["first", "second"]);
}

#[test]
fn initialize_stages_the_two_bootstrap_tasks() {
    let state = State::initialize(plain_inputs());
    assert_eq!(state.queue.len(), 2);
    assert_eq!(state.queue[0].cmd().as_str(), "set_log_level");
    assert_eq!(state.queue[0].priority(), Some(100));
    assert!(state.queue[0].args().is_empty());
    assert_eq!(state.queue[1].cmd().as_str(), "set_state_from_rpr_conf");
    assert_eq!(state.queue[1].priority(), Some(200));
    assert!(state.queue[1].args().is_empty());
}

#[test]
fn queue_task_appends_in_order() {
    let mut state = State::initialize(plain_inputs());
    let extra = Action::new("extra".to_string()).ready();
    state.queue_task(extra);
    assert_eq!(state.queue.len(), 3);
    assert_eq!(state.queue[2].cmd().as_str(), "extra");
}

#[test]
fn drain_ready_orders_by_priority_with_stable_ties() {
    let mut state = State::initialize(plain_inputs());
    state.queue = Vec::new();
    state.queue_task(Action::new("a".to_string()).priority(200).ready());
    state.queue_task(Action::new("b".to_string()).priority(100).ready());
    state.queue_task(Action::new("c".to_string()).ready());
    state.queue_task(Action::new("d".to_string()).priority(100).ready());
    let drained = state.drain_ready();
    assert!(state.queue.is_empty());
    let order: Vec<&str> = drained.iter().map(|t| t.cmd().as_str()).collect();
    assert_eq!(order, vec!["b", "d", "a", "c"]);
}

#[test]
fn drain_ready_on_bootstrap_queue_runs_log_level_first() {
    let mut state = State::initialize(plain_inputs());
    let drained = state.drain_ready();
    let order: Vec<&str> = drained.iter().map(|t| t.cmd().as_str()).collect();
    assert_eq!(order, vec!["set_log_level", "set_state_from_rpr_conf"]);
}

#[test]
fn dispatch_records_unknown_command_and_processes_the_rest() {
    let tasks = vec![
        Action::new("set_log_level".to_string()).ready(),
        Action::new("reticulate_splines".to_string()).ready(),
        Action::new("set_state_from_rpr_conf".to_string()).ready(),
    ];
    let outcomes = dispatch_plan(&tasks);
    assert_eq!(outcomes.len(), 3);
    assert_eq!(outcomes[0], TaskOutcome::Dispatched(Command::SetLogLevel));
    assert_eq!(outcomes[1], TaskOutcome::Failed(RprError::UnknownCommand));
    assert_eq!(outcomes[2], TaskOutcome::Dispatched(Command::SetStateFromRprConf));
}

#[test]
fn verbosity_mapping_matches_flag_counts() {
    assert_eq!(verbosity_level(0, false), "info");
    assert_eq!(verbosity_level(1, false), "debug");
    assert_eq!(verbosity_level(2, false), "trace");
    assert_eq!(verbosity_level(7, false), "trace");
    assert_eq!(verbosity_level(2, true), "error");
}
