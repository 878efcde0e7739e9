use demikernel_ci::config::{Config, ENV_VAR_PREFIX, JOBS_HOME};
use demikernel_ci::trigger::{parse_job_parameters, parse_trigger, split_on, TriggerError};

#[test]
fn trigger_query_gives_env_and_path() {
    let r = parse_trigger("/run", Some("JOB=build&TARGET=release"), "DEMIKERNEL_", "jobs").unwrap();
    assert_eq!(r.name, "build");
    assert_eq!(r.path, "jobs/build");
    assert_eq!(r.env, vec![("DEMIKERNEL_TARGET".to_string(), "release".to_string())]);
}

#[test]
fn trigger_keys_are_upper_cased() {
    let r = parse_trigger("/run", Some("job=test&target=debug"), ENV_VAR_PREFIX, JOBS_HOME).unwrap();
    assert_eq!(r.name, "test");
    assert_eq!(r.path, "jobs/test");
    assert_eq!(r.env, vec![("DEMIKERNEL_TARGET".to_string(), "debug".to_string())]);
}

#[test]
fn trigger_errors() {
    assert_eq!(parse_trigger("/stop", Some("JOB=a"), "P_", "j").err(), Some(TriggerError::UnsupportedTrigger));
    assert_eq!(parse_trigger("/run", None, "P_", "j").err(), Some(TriggerError::MissingQuery));
    assert_eq!(parse_trigger("/run", Some(""), "P_", "j").err(), Some(TriggerError::MalformedQuery));
    assert_eq!(parse_trigger("/run", Some("a=b=c&x"), "P_", "j").err(), Some(TriggerError::MalformedQuery));
    assert_eq!(parse_trigger("/run", Some("A=1"), "P_", "j").err(), Some(TriggerError::MissingJobName));
}

#[test]
fn query_pairs_that_do_not_split_in_two_are_dropped() {
    let p = parse_job_parameters("a=1&b&c=2=3&d=4");
    assert_eq!(p, vec![("A".to_string(), "1".to_string()), ("D".to_string(), "4".to_string())]);
}

#[test]
fn later_query_value_replaces_earlier() {
    let p = parse_job_parameters("k=1&K=2");
    assert_eq!(p, vec![("K".to_string(), "2".to_string())]);
}

#[test]
fn split_keeps_empty_pieces() {
    assert_eq!(split_on("a&&b&", '&'), vec!["a", "", "b", ""]);
    assert_eq!(split_on("", '&'), vec![""]);
}

#[test]
fn config_prefix_and_jobs_home() {
    let c = Config::from_text("workers: []\n").unwrap();
    assert_eq!(c.jobs_home(), "jobs");
    assert_eq!(Config::env_var_prefix(), "DEMIKERNEL_");
}
