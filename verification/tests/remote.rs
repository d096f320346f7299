use oar_p2p::context::{
    execution_node_from_hostname, job_id_from_listed, Context, EnvironmentError, ExecutionNode,
    JobIdDecision,
};
use oar_p2p::executor::{build_run_argv, build_scp_argv, collect_fan_out_results, container_run_args, transport_args};
use oar_p2p::machine::Machine;

fn ssh_common() -> Vec<String> {
    vec![
        "-o".to_string(),
        "StrictHostKeyChecking=no".to_string(),
        "-o".to_string(),
        "UserKnownHostsFile=/dev/null".to_string(),
    ]
}

#[test]
fn node_detection_maps_hostnames() {
    assert_eq!(execution_node_from_hostname("frontend"), ExecutionNode::Frontend);
    assert_eq!(
        execution_node_from_hostname("gengar-1"),
        ExecutionNode::Machine(Machine::Gengar1)
    );
    assert_eq!(execution_node_from_hostname("laptop"), ExecutionNode::Unknown);
}

#[test]
fn transport_from_frontend_is_plain_ssh() {
    let ctx = Context::new(ExecutionNode::Frontend, None, false, None);
    let args = transport_args(&ctx, Machine::Gengar2).unwrap();
    let mut expected = vec!["ssh".to_string()];
    expected.extend(ssh_common());
    expected.push("gengar-2".to_string());
    assert_eq!(args, expected);
}

#[test]
fn transport_on_target_machine_is_local() {
    let ctx = Context::new(ExecutionNode::Machine(Machine::Gengar1), None, false, None);
    let args = transport_args(&ctx, Machine::Gengar1).unwrap();
    assert!(args.is_empty());
    let full = build_run_argv(&ctx, Machine::Gengar1, &Vec::new()).unwrap();
    assert_eq!(full, vec!["bash".to_string()]);
}

#[test]
fn transport_between_machines_uses_ssh() {
    let ctx = Context::new(ExecutionNode::Machine(Machine::Gengar1), None, false, None);
    let args = transport_args(&ctx, Machine::Gengar2).unwrap();
    assert_eq!(args[0], "ssh");
    assert_eq!(args.last().unwrap(), "gengar-2");
}

#[test]
fn transport_from_outside_jumps_through_frontend() {
    let ctx = Context::new(
        ExecutionNode::Unknown,
        None,
        false,
        Some("gateway.example".to_string()),
    );
    let args = transport_args(&ctx, Machine::Gengar2).unwrap();
    let mut expected = vec!["ssh".to_string()];
    expected.extend(ssh_common());
    expected.push("-J".to_string());
    expected.push("gateway.example".to_string());
    expected.push("gengar-2".to_string());
    assert_eq!(args, expected);
}

#[test]
fn transport_from_outside_without_frontend_fails() {
    let ctx = Context::new(ExecutionNode::Unknown, None, false, None);
    let r = transport_args(&ctx, Machine::Gengar2);
    assert_eq!(r, Err(EnvironmentError::MissingFrontendHostname));
    assert_eq!(
        Context::new(ExecutionNode::Unknown, None, false, None)
            .frontend_hostname()
            .unwrap_err()
            .message(),
        "missing frontend hostname"
    );
}

#[test]
fn run_argv_appends_command_after_transport() {
    let ctx = Context::new(ExecutionNode::Frontend, None, false, None);
    let args = vec!["docker".to_string(), "ps".to_string()];
    let full = build_run_argv(&ctx, Machine::Gengar1, &args).unwrap();
    let mut expected = vec!["ssh".to_string()];
    expected.extend(ssh_common());
    expected.push("gengar-1".to_string());
    expected.push("docker".to_string());
    expected.push("ps".to_string());
    assert_eq!(full, expected);
}

#[test]
fn container_run_args_are_privileged_host_networked() {
    assert_eq!(
        container_run_args(),
        vec![
            "docker".to_string(),
            "run".to_string(),
            "--rm".to_string(),
            "-i".to_string(),
            "--net=host".to_string(),
            "--privileged".to_string(),
            "local/oar-p2p-networking".to_string(),
        ]
    );
}

#[test]
fn scp_argv_copies_log_directory() {
    let ctx = Context::new(ExecutionNode::Frontend, None, false, None);
    let args = build_scp_argv(&ctx, Machine::Gengar1, "/tmp/out").unwrap();
    let mut expected = vec!["scp".to_string()];
    expected.extend(ssh_common());
    expected.push("-r".to_string());
    expected.push("gengar-1:/tmp/oar-p2p-logs".to_string());
    expected.push("/tmp/out".to_string());
    assert_eq!(args, expected);
}

// A stubbed fan-out with one failing machine: the error message names that
// machine's hostname, the other results are discarded without crashing.
#[test]
fn fan_out_error_names_the_failing_machine() {
    let results: Vec<(Machine, Result<u32, String>)> = vec![
        (Machine::Gengar1, Ok(1)),
        (Machine::Gengar2, Err("exit status 1".to_string())),
        (Machine::Gengar3, Ok(3)),
    ];
    let err = collect_fan_out_results(results).unwrap_err();
    assert_eq!(err.machine, Machine::Gengar2);
    let message = err.message();
    assert!(message.contains("gengar-2"));
    assert_eq!(message, "running task on machine gengar-2: exit status 1");
}

#[test]
fn fan_out_collects_all_successes_in_order() {
    let results: Vec<(Machine, Result<u32, String>)> = vec![
        (Machine::Gengar2, Ok(2)),
        (Machine::Gengar1, Ok(1)),
    ];
    let collected = collect_fan_out_results(results).unwrap();
    assert_eq!(collected, vec![(Machine::Gengar2, 2), (Machine::Gengar1, 1)]);
}

#[test]
fn job_id_decision_prefers_explicit_id() {
    let explicit = Context::new(ExecutionNode::Frontend, Some(42), true, None);
    assert_eq!(explicit.job_id_decision(), JobIdDecision::Provided(42));
    let inferring = Context::new(ExecutionNode::Frontend, None, true, None);
    assert_eq!(inferring.job_id_decision(), JobIdDecision::Infer);
    let missing = Context::new(ExecutionNode::Frontend, None, false, None);
    assert_eq!(missing.job_id_decision(), JobIdDecision::Missing);
    assert_eq!(EnvironmentError::MissingJobId.message(), "missing job id");
}

#[test]
fn job_id_from_listed_requires_exactly_one() {
    assert_eq!(job_id_from_listed(&vec![7]), Ok(7));
    let none = job_id_from_listed(&Vec::new()).unwrap_err();
    assert_eq!(none.message(), "cannot infer job id, no jobs are running");
    let many = job_id_from_listed(&vec![1, 2]).unwrap_err();
    assert_eq!(many.message(), "cannot infer job id, multiple jobs are running");
}
