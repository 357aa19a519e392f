use monte_pi::config::base_name;
use monte_pi::config::parse_args;
use monte_pi::config::usage_message;
use monte_pi::config::RunConfig;
use monte_pi::config::DEFAULT_ITERATIONS;
use monte_pi::config::DEFAULT_RADIUS;

fn args_of(parts: &[&str]) -> Vec<String> {
    parts.iter().map(|p| p.to_string()).collect()
}

#[test]
fn threads_zero_rejected() {
    assert_eq!(parse_args(&args_of(&["prog", "-threads:0"])), None);
}

#[test]
fn threads_negative_rejected() {
    assert_eq!(parse_args(&args_of(&["prog", "-threads:-5"])), None);
}

#[test]
fn threads_garbage_rejected() {
    assert_eq!(parse_args(&args_of(&["prog", "-threads:abc"])), None);
}

#[test]
fn threads_empty_count_rejected() {
    assert_eq!(parse_args(&args_of(&["prog", "-threads:"])), None);
}

#[test]
fn threads_overflowing_count_rejected() {
    assert_eq!(parse_args(&args_of(&["prog", "-threads:99999999999999999999999"])), None);
}

#[test]
fn no_argument_rejected() {
    assert_eq!(parse_args(&args_of(&["prog"])), None);
}

#[test]
fn empty_argument_list_rejected() {
    assert_eq!(parse_args(&args_of(&[])), None);
}

#[test]
fn unrecognized_argument_rejected() {
    assert_eq!(parse_args(&args_of(&["prog", "-workers:4"])), None);
}

#[test]
fn threads_four_yields_four_workers() {
    assert_eq!(parse_args(&args_of(&["prog", "-threads:4"])), Some(4));
}

#[test]
fn threads_one_yields_one_worker() {
    assert_eq!(parse_args(&args_of(&["prog", "-threads:1"])), Some(1));
}

#[test]
fn physical_matches_host_count() {
    assert_eq!(parse_args(&args_of(&["prog", "-physical"])), Some(num_cpus::get_physical()));
}

#[test]
fn logical_matches_host_count() {
    assert_eq!(parse_args(&args_of(&["prog", "-logical"])), Some(num_cpus::get()));
}

#[test]
fn last_recognized_argument_wins() {
    assert_eq!(parse_args(&args_of(&["prog", "-physical", "-threads:3"])), Some(3));
}

#[test]
fn unparsable_count_does_not_override() {
    assert_eq!(parse_args(&args_of(&["prog", "-threads:3", "-threads:abc"])), Some(3));
}

#[test]
fn run_config_defaults() {
    let config = RunConfig::new(4);
    assert_eq!(config.workers, 4);
    assert_eq!(config.iterations, DEFAULT_ITERATIONS);
    assert_eq!(config.radius, DEFAULT_RADIUS);
    assert_eq!(DEFAULT_ITERATIONS, 1_000_000_000);
    assert_eq!(DEFAULT_RADIUS, 10);
}

#[test]
fn base_name_strips_directories() {
    assert_eq!(base_name("/usr/local/bin/prog"), "prog");
    assert_eq!(base_name("dir/prog"), "prog");
    assert_eq!(base_name("prog"), "prog");
    assert_eq!(base_name("dir/"), "");
}

#[test]
fn usage_names_executable_and_modes() {
    let expected = "Usage: prog <-physical>|<-logical>|<-threads:thread_count>\n\
                    \twhere:\n\
                    \t\t-physical means use as many threads as physical cores\n\
                    \t\t-logical means use as many threads as logical cores\n\
                    \t\t-threads: means use as many threads as requested (>0)";
    assert_eq!(usage_message("/usr/bin/prog"), expected);
    assert_eq!(usage_message("prog"), expected);
}
