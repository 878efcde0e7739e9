use demikernel_ci::runner::{command_line, forwarded_env, process_output};

#[test]
fn commands_are_joined_with_and() {
    let cmds = vec!["echo a".to_string(), "echo b".to_string(), "echo a".to_string()];
    assert_eq!(command_line(&cmds), "echo a &&echo b &&echo a");
    assert_eq!(command_line(&vec!["ls".to_string()]), "ls");
    assert_eq!(command_line(&Vec::new()), "");
}

#[test]
fn job_variable_is_not_forwarded() {
    let env = vec![
        ("JOB".to_string(), "x".to_string()),
        ("DEMIKERNEL_TARGET".to_string(), "r".to_string()),
        ("Job".to_string(), "y".to_string()),
        ("JOBS".to_string(), "z".to_string()),
    ];
    assert_eq!(
        forwarded_env(&env),
        vec![("DEMIKERNEL_TARGET".to_string(), "r".to_string()), ("JOBS".to_string(), "z".to_string())]
    );
}

#[test]
fn output_lines_are_tagged_and_empty_lines_dropped() {
    assert_eq!(process_output("stdout", "hi\n\nthere\n"), vec!["[stdout] hi", "[stdout] there"]);
    assert_eq!(process_output("stderr", "oops"), vec!["[stderr] oops"]);
    assert!(process_output("stdout", "").is_empty());
}
