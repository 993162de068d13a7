use clap::builder::RangedU64ValueParser;
use clap::error::ErrorKind;
use clap::{Arg, ArgMatches, Command};
use montecarlo_pi::schedule::{check_samples, parallel_windows, worker_threads, ArgumentError};

fn count(text: &str) -> Result<usize, std::num::ParseIntError> {
    text.parse::<usize>()
}

fn num() -> Arg {
    Arg::new("num").short('n').long("num").required(true).value_parser(count)
}

fn cli() -> Command {
    Command::new("montecarlo-pi")
        .subcommand_required(true)
        .subcommand(Command::new("serial").arg(num()))
        .subcommand(
            Command::new("parallel")
                .arg(num())
                .arg(
                    Arg::new("thread")
                        .short('j')
                        .long("jobs")
                        .value_parser(RangedU64ValueParser::<u16>::new().range(1..)),
                )
                .arg(
                    Arg::new("window")
                        .short('w')
                        .long("window")
                        .default_value("0")
                        .value_parser(count),
                ),
        )
}

fn parse(line: &[&str]) -> Result<ArgMatches, clap::Error> {
    cli().try_get_matches_from(line.iter().copied())
}

fn parallel_arguments(line: &[&str]) -> (usize, Option<u16>, usize) {
    let matches = parse(line).unwrap();
    let (name, found) = matches.subcommand().unwrap();
    assert_eq!(name, "parallel");
    (
        *found.get_one::<usize>("num").unwrap(),
        found.get_one::<u16>("thread").copied(),
        *found.get_one::<usize>("window").unwrap(),
    )
}

#[test]
fn verify_cli() {
    cli().debug_assert();
}

#[test]
fn serial_line_is_accepted() {
    let matches = parse(&["montecarlo-pi", "serial", "-n", "4000000"]).unwrap();
    let (name, found) = matches.subcommand().unwrap();
    assert_eq!(name, "serial");
    let num = *found.get_one::<usize>("num").unwrap();
    assert_eq!(num, 4_000_000);
    assert_eq!(check_samples(num), Ok(()));
}

#[test]
fn parallel_line_with_jobs_is_accepted() {
    let (num, jobs, window) =
        parallel_arguments(&["montecarlo-pi", "parallel", "-n", "4000000", "-j", "4", "-w", "0"]);
    assert_eq!((num, jobs, window), (4_000_000, Some(4), 0));
    assert_eq!(check_samples(num), Ok(()));
    assert_eq!(worker_threads(jobs, 16), Ok(4));
    assert_eq!(parallel_windows(num, window, 16), vec![250_000; 16]);
}

#[test]
fn parallel_line_with_window_makes_one_worker() {
    let (num, jobs, window) =
        parallel_arguments(&["montecarlo-pi", "parallel", "-n", "10", "-w", "100"]);
    assert_eq!((num, jobs, window), (10, None, 100));
    assert_eq!(parallel_windows(num, window, 8), vec![10]);
}

#[test]
fn window_takes_precedence_over_jobs() {
    let (num, jobs, window) = parallel_arguments(&[
        "montecarlo-pi",
        "parallel",
        "--num",
        "1000",
        "--jobs",
        "2",
        "--window",
        "300",
    ]);
    assert_eq!(worker_threads(jobs, 8), Ok(2));
    assert_eq!(parallel_windows(num, window, 8), vec![250; 4]);
}

#[test]
fn window_defaults_to_auto() {
    let (_, jobs, window) = parallel_arguments(&["montecarlo-pi", "parallel", "-n", "5"]);
    assert_eq!(jobs, None);
    assert_eq!(window, 0);
}

#[test]
fn zero_jobs_are_refused_on_the_command_line() {
    let refused = parse(&["montecarlo-pi", "parallel", "-n", "5", "-j", "0"]).unwrap_err();
    assert_eq!(refused.kind(), ErrorKind::ValueValidation);
    assert_eq!(worker_threads(Some(0), 8), Err(ArgumentError::NoJobs));
}

#[test]
fn zero_samples_are_refused_after_parsing() {
    let matches = parse(&["montecarlo-pi", "serial", "-n", "0"]).unwrap();
    let (_, found) = matches.subcommand().unwrap();
    let num = *found.get_one::<usize>("num").unwrap();
    assert_eq!(check_samples(num), Err(ArgumentError::NoSamples));
}

#[test]
fn missing_budget_is_refused() {
    let refused = parse(&["montecarlo-pi", "serial"]).unwrap_err();
    assert_eq!(refused.kind(), ErrorKind::MissingRequiredArgument);
    let refused = parse(&["montecarlo-pi", "parallel", "-w", "3"]).unwrap_err();
    assert_eq!(refused.kind(), ErrorKind::MissingRequiredArgument);
}
