use std::str::FromStr;

use capscan::cli::drop_subcommand;
use capscan::registry::{
    cache_dir_name, fetch_arguments, fetch_via_cargo, locate_cached, AfterStep, CacheEntry,
    FetchStep, Located,
};
use capscan::text::{
    contains, chars_of, count_lines, ends_with, is_same_but_case, is_text_le, join, pad,
    starts_with, to_decimal,
};
use capscan::{locate_or_fetch, Severity};

fn strings(list: &[&str]) -> Vec<String> {
    list.iter().map(|s| s.to_string()).collect()
}

#[test]
fn cargo_subcommand_name_is_dropped() {
    assert_eq!(
        drop_subcommand(strings(&["cargo-capscan", "capscan", "scan", "capscan"])),
        strings(&["cargo-capscan", "scan", "capscan"])
    );
    assert_eq!(
        drop_subcommand(strings(&["cargo-capscan", "scan"])),
        strings(&["cargo-capscan", "scan"])
    );
    assert_eq!(drop_subcommand(strings(&["capscan"])), strings(&["capscan"]));
    assert_eq!(drop_subcommand(vec![]), strings(&[]));
}

#[test]
fn a_crate_is_fetched_once_and_looked_for_again() {
    assert!(matches!(locate_or_fetch("a", "1", false, Some(7)), Located::Found(7)));
    assert!(matches!(locate_or_fetch("a", "1", true, Some(7)), Located::Found(7)));
    assert!(matches!(locate_or_fetch::<u8>("a", "1", false, None), Located::Fetch));
    match locate_or_fetch::<u8>("a", "1", true, None) {
        Located::Missing(message) => assert_eq!(
            message,
            "still couldn't find a-1 in the registry cache after fetching"
        ),
        _ => panic!("expected a message"),
    }
}

#[test]
fn the_first_cache_directory_that_holds_the_crate_is_taken() {
    let entry = |is_dir, holds_crate| CacheEntry { is_dir, holds_crate };
    assert_eq!(locate_cached(&vec![]), None);
    assert_eq!(locate_cached(&vec![entry(false, true), entry(true, false)]), None);
    assert_eq!(
        locate_cached(&vec![entry(true, false), entry(true, true), entry(true, true)]),
        Some(1)
    );
    assert_eq!(cache_dir_name("anyhow", "1.0.70"), "anyhow-1.0.70");
}

#[test]
fn cargo_is_run_step_by_step() {
    assert_eq!(
        fetch_arguments("a", "1", FetchStep::Init),
        strings(&["init", "--name", "capscan_probe", "--quiet"])
    );
    assert_eq!(
        fetch_arguments("a", "1", FetchStep::Add),
        strings(&["add", "a@=1", "--quiet"])
    );
    assert_eq!(fetch_arguments("a", "1", FetchStep::Fetch), strings(&["fetch", "--quiet"]));
    assert!(matches!(
        fetch_via_cargo("a", "1", FetchStep::Init, true),
        AfterStep::Run(FetchStep::Add)
    ));
    assert!(matches!(
        fetch_via_cargo("a", "1", FetchStep::Add, true),
        AfterStep::Run(FetchStep::Fetch)
    ));
    assert!(matches!(fetch_via_cargo("a", "1", FetchStep::Fetch, true), AfterStep::Done));
    let failure = |step| match fetch_via_cargo("a", "1", step, false) {
        AfterStep::Failed(message) => message,
        _ => panic!("expected a failure"),
    };
    assert_eq!(
        failure(FetchStep::Init),
        "`cargo init` failed while preparing a scratch project to fetch a-1"
    );
    assert_eq!(
        failure(FetchStep::Add),
        "`cargo add a@=1` failed -- does that name/version exist on crates.io?"
    );
    assert_eq!(failure(FetchStep::Fetch), "`cargo fetch` failed for a-1");
}

#[test]
fn severity_words_are_read_back_and_others_named() {
    for severity in [Severity::Low, Severity::Medium, Severity::High] {
        assert_eq!(Severity::from_str(severity.label()), Ok(severity));
        assert_eq!(Severity::from_str(&severity.label().to_uppercase()), Ok(severity));
    }
    assert_eq!(
        Severity::from_str("lo"),
        Err("unknown severity `lo`: expected low, medium or high".to_string())
    );
    assert!(Severity::from_str("").is_err());
}

#[test]
fn texts_are_compared_and_formatted() {
    let s = chars_of("fs::write");
    assert!(starts_with(&s, "fs") && !starts_with(&s, "s"));
    assert!(ends_with(&s, "write") && !ends_with(&s, "writ"));
    assert!(contains(&s, "::") && contains(&s, "") && !contains(&s, ":::"));
    assert!(is_text_le("a", "ab") && !is_text_le("b", "ab") && is_text_le("", ""));
    assert!(is_text_le("z", "\u{e9}") && !is_text_le("\u{10000}", "\u{ffff}"));
    assert_eq!(is_text_le("z", "\u{e9}"), "z" <= "\u{e9}");
    assert!(is_same_but_case("aBc", "AbC") && !is_same_but_case("abc", "ab"));
    assert_eq!(to_decimal(0), "0");
    assert_eq!(to_decimal(1098), "1098");
    assert_eq!(to_decimal(usize::MAX), usize::MAX.to_string());
    assert_eq!(join(&strings(&["a", "b", "c"]), ", "), "a, b, c");
    assert_eq!(pad("ab", 4), "ab  ");
    assert_eq!(pad("abcde", 4), "abcde");
}

#[test]
fn lines_are_counted_as_the_standard_library_does() {
    for text in ["", "\n", "a", "a\n", "a\nb", "a\n\n", "a\r\nb\r\n", "\r", "\n\nx"] {
        assert_eq!(count_lines(text), text.lines().count(), "{text:?}");
    }
}
