use capscan::audit::{
    audit_entry, audit_outcome, audit_worst, is_behind, rank_entries, render_audit,
};
use capscan::diff::{exit_code, render_diff};
use capscan::lockfile::{
    nothing_scanned, pinned_version, plan_change, resolve_change, ChangePlan, Scanned,
};
use capscan::report::render_report;
use capscan::{
    diff_reports, filter_by_min_severity, lockfile_version_changes, parse_lockfile, AuditEntry,
    CrateReport, LockedDependency, Severity, Signal, SignalKind, VersionChange,
};

fn signal(kind: SignalKind, file: &str, line: usize, detail: &str) -> Signal {
    Signal {
        kind,
        file: file.to_string(),
        line,
        detail: detail.to_string(),
    }
}

fn report(version: &str, signals: Vec<Signal>, dependencies: &[&str]) -> CrateReport {
    CrateReport {
        name: "x".to_string(),
        version: version.to_string(),
        files_scanned: 3,
        lines_scanned: 120,
        dependencies: dependencies.iter().map(|s| s.to_string()).collect(),
        signals,
    }
}

fn locked(name: &str, version: &str) -> LockedDependency {
    LockedDependency {
        name: name.to_string(),
        version: version.to_string(),
    }
}

fn details(signals: &[Signal]) -> Vec<&str> {
    signals.iter().map(|s| s.detail.as_str()).collect()
}

#[test]
fn every_kind_has_its_severity_and_label() {
    let table = [
        (SignalKind::UnsafeFn, Severity::High, "unsafe fn"),
        (SignalKind::UnsafeImpl, Severity::High, "unsafe impl"),
        (SignalKind::Ffi, Severity::High, "extern FFI block"),
        (SignalKind::SymbolExport, Severity::High, "exported symbol"),
        (SignalKind::Transmute, Severity::High, "transmute"),
        (SignalKind::ProcessSpawn, Severity::High, "process spawn"),
        (SignalKind::BuildScript, Severity::High, "build.rs script"),
        (SignalKind::ProcMacroCrate, Severity::High, "proc-macro crate"),
        (SignalKind::NativeLinkage, Severity::High, "native library linkage"),
        (SignalKind::UnsafeBlock, Severity::Medium, "unsafe block"),
        (SignalKind::NetworkAccess, Severity::Medium, "network access"),
        (SignalKind::FilesystemWrite, Severity::Medium, "filesystem write"),
        (SignalKind::EnvWrite, Severity::Medium, "env write"),
        (SignalKind::EnvRead, Severity::Low, "env read"),
        (SignalKind::BuildTimeMacro, Severity::Low, "build-time macro"),
    ];
    for (kind, severity, label) in table {
        assert_eq!(kind.severity(), severity);
        assert_eq!(kind.label(), label);
    }
    assert_eq!(Severity::Low.label(), "low");
    assert_eq!(Severity::Medium.label(), "medium");
    assert_eq!(Severity::High.label(), "high");
    assert_eq!(Severity::Low.max(Severity::High), Severity::High);
}

#[test]
fn identity_is_kind_and_detail() {
    let s = signal(SignalKind::UnsafeFn, "a.rs", 7, "go");
    assert_eq!(s.dedup_key(), (SignalKind::UnsafeFn, "go".to_string()));
    assert!(s.same_key(&signal(SignalKind::UnsafeFn, "b.rs", 9, "go")));
    assert!(!s.same_key(&signal(SignalKind::UnsafeFn, "a.rs", 7, "stop")));
    assert!(!s.same_key(&signal(SignalKind::UnsafeImpl, "a.rs", 7, "go")));
}

#[test]
fn counts_give_each_kind_once() {
    let r = report(
        "1",
        vec![
            signal(SignalKind::EnvRead, "a.rs", 1, "env::var"),
            signal(SignalKind::Ffi, "a.rs", 2, "x"),
            signal(SignalKind::EnvRead, "b.rs", 3, "env::var"),
        ],
        &[],
    );
    let mut counts = r.counts();
    counts.sort_by_key(|(kind, _)| kind.label());
    assert_eq!(counts, vec![(SignalKind::EnvRead, 2), (SignalKind::Ffi, 1)]);
    assert!(report("1", vec![], &[]).counts().is_empty());
}

#[test]
fn diff_lists_the_first_of_each_identity_and_sorts_by_risk_then_file() {
    let old = report(
        "1",
        vec![
            signal(SignalKind::EnvRead, "z.rs", 1, "old read"),
            signal(SignalKind::Ffi, "m.rs", 2, "gone z"),
            signal(SignalKind::EnvRead, "a.rs", 3, "gone a"),
            signal(SignalKind::EnvRead, "a.rs", 4, "gone a"),
        ],
        &["b", "c", "a"],
    );
    let new = report(
        "2",
        vec![
            signal(SignalKind::EnvRead, "a.rs", 1, "low"),
            signal(SignalKind::UnsafeFn, "z.rs", 2, "high z"),
            signal(SignalKind::UnsafeBlock, "a.rs", 3, "medium"),
            signal(SignalKind::UnsafeFn, "a.rs", 9, "high a one"),
            signal(SignalKind::UnsafeFn, "a.rs", 5, "high a two"),
            signal(SignalKind::UnsafeFn, "b.rs", 6, "high z"),
            signal(SignalKind::EnvRead, "q.rs", 7, "old read"),
        ],
        &["d", "c", "e", "d"],
    );
    let diff = diff_reports(&old, &new);
    assert_eq!(
        details(&diff.added),
        vec!["high a one", "high a two", "high z", "medium", "low"]
    );
    assert_eq!(diff.added[2].file, "z.rs");
    assert_eq!(details(&diff.removed), vec!["gone a", "gone z"]);
    assert_eq!(diff.removed[0].line, 3);
    assert_eq!(diff.added_dependencies, vec!["d", "e"]);
    assert_eq!(diff.removed_dependencies, vec!["a", "b"]);
    assert_eq!(diff.old, ("x".to_string(), "1".to_string()));
    assert_eq!(diff.new, ("x".to_string(), "2".to_string()));
}

#[test]
fn diff_of_a_report_with_itself_is_empty() {
    let r = report("1", vec![signal(SignalKind::Ffi, "a.rs", 1, "x")], &["a"]);
    let diff = diff_reports(&r, &r.clone());
    assert!(diff.added.is_empty() && diff.removed.is_empty());
    assert!(diff.added_dependencies.is_empty() && diff.removed_dependencies.is_empty());
    assert_eq!(diff.worst_severity(), None);
}

#[test]
fn reversed_diff_swaps_what_is_added_and_removed() {
    let a = report("1", vec![signal(SignalKind::Ffi, "a.rs", 1, "x")], &["p"]);
    let b = report("2", vec![signal(SignalKind::EnvRead, "a.rs", 1, "y")], &["q"]);
    let (there, back) = (diff_reports(&a, &b), diff_reports(&b, &a));
    assert_eq!(there.added, back.removed);
    assert_eq!(there.removed, back.added);
    assert_eq!(there.added_dependencies, back.removed_dependencies);
}

#[test]
fn reversed_diff_holds_the_same_signals_in_another_order() {
    let read = signal(SignalKind::EnvRead, "a.rs", 1, "y");
    let block = signal(SignalKind::Ffi, "b.rs", 2, "x");
    let a = report("1", vec![], &[]);
    let b = report("2", vec![read.clone(), block.clone()], &[]);
    let (there, back) = (diff_reports(&a, &b), diff_reports(&b, &a));
    assert_eq!(there.added, vec![block.clone(), read.clone()]);
    assert_eq!(back.removed, vec![read, block]);
    assert!(there.removed.is_empty() && back.added.is_empty());
}

#[test]
fn worst_severity_and_exit_code_follow_what_is_gained() {
    let worst = |signals: Vec<Signal>, dependencies: &[&str]| {
        diff_reports(&report("1", vec![], &[]), &report("2", signals, dependencies))
            .worst_severity()
    };
    let low = || signal(SignalKind::EnvRead, "a.rs", 1, "r");
    let medium = || signal(SignalKind::UnsafeBlock, "a.rs", 1, "b");
    let high = || signal(SignalKind::UnsafeFn, "a.rs", 1, "f");
    assert_eq!(worst(vec![], &[]), None);
    assert_eq!(worst(vec![low()], &[]), Some(Severity::Low));
    assert_eq!(worst(vec![low()], &["d"]), Some(Severity::Medium));
    assert_eq!(worst(vec![], &["d"]), Some(Severity::Medium));
    assert_eq!(worst(vec![low(), medium()], &[]), Some(Severity::Medium));
    assert_eq!(worst(vec![low(), high(), medium()], &["d"]), Some(Severity::High));
    assert_eq!(exit_code(None), 0);
    assert_eq!(exit_code(Some(Severity::Low)), 0);
    assert_eq!(exit_code(Some(Severity::Medium)), 1);
    assert_eq!(exit_code(Some(Severity::High)), 2);
}

#[test]
fn report_is_shown_line_by_line() {
    let r = report(
        "1.0",
        vec![
            signal(SignalKind::ProcessSpawn, "build.rs", 117, "Command::new"),
            signal(SignalKind::UnsafeBlock, "src/error.rs", 163, "unsafe { .. }"),
        ],
        &["libc", "serde"],
    );
    assert_eq!(
        render_report(&r),
        "x 1.0  (3 files scanned, 120 lines)\n\
         dependencies: libc, serde\n\
         \x20 [high] build.rs:117  process spawn -- Command::new\n\
         \x20 [medium] src/error.rs:163  unsafe block -- unsafe { .. }\n"
    );
    assert_eq!(
        render_report(&report("0", vec![], &[])),
        "x 0  (3 files scanned, 120 lines)\ndependencies: \nno capability signals found.\n"
    );
}

#[test]
fn diff_is_shown_line_by_line() {
    let old = report(
        "1",
        vec![signal(SignalKind::FilesystemWrite, "build.rs", 85, "fs::write")],
        &["backtrace"],
    );
    let new = report(
        "2",
        vec![signal(SignalKind::UnsafeFn, "src/error.rs", 777, "go")],
        &["libc", "cc"],
    );
    assert_eq!(
        render_diff(&diff_reports(&old, &new)),
        "x 1  ->  x 2\n\
         + 1 new signal(s):\n\
         \x20   [high] src/error.rs:777  unsafe fn -- go\n\
         + new dependencies: cc, libc\n\
         - 1 signal(s) no longer present:\n\
         \x20   [medium] build.rs:85  filesystem write -- fs::write\n\
         - removed dependencies: backtrace\n\
         \n\
         worst new severity: high\n"
    );
    assert_eq!(
        render_diff(&diff_reports(&new, &new)),
        "x 2  ->  x 2\nno new capability signals.\n\nno new risk detected\n"
    );
}

fn entry(name: &str, old: &str, new: &str, signals: Vec<Signal>, dependencies: &[&str]) -> AuditEntry {
    audit_entry(
        locked(name, old),
        new.to_string(),
        Some((report(old, vec![], &[]), report(new, signals, dependencies))),
    )
}

fn up_to_date(name: &str) -> AuditEntry {
    audit_entry(locked(name, "1.0.0"), "1.0.0".to_string(), None)
}

#[test]
fn audit_is_shown_with_the_worst_first_and_counts_everything() {
    let entries = vec![
        up_to_date("anyhow"),
        entry("syn", "2.0.119", "3.0.2", vec![], &[]),
        entry("toml", "0.8.23", "1.1.3", vec![], &["a", "b"]),
        entry(
            "serde_spanned",
            "0.6.9",
            "1.1.1",
            vec![signal(SignalKind::UnsafeFn, "a.rs", 1, "f")],
            &[],
        ),
    ];
    let entries = rank_entries(entries);
    assert_eq!(
        render_audit(&entries, &entries),
        "audited 4 registry dependencies (1 already at latest)\n\
         3 have updates available:\n\
         \x20 [high  ] serde_spanned            0.6.9 -> 1.1.1  (+1 signal(s), -0 signal(s))\n\
         \x20 [medium] toml                     0.8.23 -> 1.1.3  (+0 signal(s), -0 signal(s), +2 new dep(s))\n\
         \x20 [none  ] syn                      2.0.119 -> 3.0.2  (+0 signal(s), -0 signal(s))\n\
         \n\
         run `cargo capscan diff <name> <old> <new>` for details on any of the above.\n"
    );
    let listed = filter_by_min_severity(
        vec![
            entry("syn", "2.0.119", "3.0.2", vec![], &[]),
            entry("toml", "0.8.23", "1.1.3", vec![], &["a", "b"]),
        ],
        Severity::Medium,
    );
    assert!(render_audit(&entries, &listed).starts_with(
        "audited 4 registry dependencies (1 already at latest)\n1 have updates available:\n"
    ));
    assert_eq!(
        render_audit(&entries, &vec![]),
        "audited 4 registry dependencies (1 already at latest)\n"
    );
}

#[test]
fn filtering_does_not_change_the_worst_that_reaches_the_threshold() {
    let make = || {
        vec![
            up_to_date("a"),
            entry("b", "1", "2", vec![signal(SignalKind::EnvRead, "a.rs", 1, "r")], &[]),
            entry("c", "1", "2", vec![], &["d"]),
        ]
    };
    assert_eq!(audit_worst(&make()), Some(Severity::Medium));
    for min in [Severity::Low, Severity::Medium] {
        assert_eq!(audit_worst(&filter_by_min_severity(make(), min)), Some(Severity::Medium));
    }
    assert!(filter_by_min_severity(make(), Severity::High).is_empty());
    assert_eq!(audit_worst(&vec![]), None);
    assert_eq!(make()[0].worst_severity(), None);
}

#[test]
fn a_dependency_is_behind_where_the_versions_differ() {
    assert!(is_behind(&locked("a", "1.0.0"), &"1.0.1".to_string()));
    assert!(!is_behind(&locked("a", "1.0.0"), &"1.0.0".to_string()));
}

#[test]
fn lockfiles_are_read_package_by_package() {
    let text = "[[package]]\nname = \"a\"\nversion = \"1\"\nsource = \"registry+x\"\n\
                [[package]]\nname = \"b\"\nversion = \"2\"\nsource = \"git+https://x\"\n\
                [[package]]\nname = \"c\"\nsource = \"registry+x\"\n\
                [[package]]\nname = \"a\"\nversion = \"2\"\nsource = \"registry+x\"\n";
    let found = parse_lockfile(text).unwrap();
    assert_eq!(found, vec![locked("a", "1"), locked("a", "2")]);
    assert_eq!(parse_lockfile("version = 4\n").unwrap(), vec![]);
    assert_eq!(parse_lockfile("package = [1, 2]\n").unwrap(), vec![]);
    assert!(parse_lockfile("[[package]\n").is_none());
}

fn change(name: &str, old: Option<&str>, new: Option<&str>) -> VersionChange {
    VersionChange {
        name: name.to_string(),
        old_version: old.map(|s| s.to_string()),
        new_version: new.map(|s| s.to_string()),
    }
}

#[test]
fn crates_pinned_at_several_versions_are_compared_version_by_version() {
    let old = vec![locked("syn", "1"), locked("syn", "2"), locked("cc", "1")];
    let new = vec![locked("syn", "2"), locked("syn", "3"), locked("syn", "4"), locked("cc", "1")];
    assert_eq!(
        lockfile_version_changes(&old, &new),
        vec![change("syn", Some("1"), Some("3")), change("syn", None, Some("4"))]
    );
    assert_eq!(
        lockfile_version_changes(&new, &old),
        vec![change("syn", Some("3"), Some("1")), change("syn", Some("4"), None)]
    );
}

#[test]
fn changes_are_planned_and_resolved() {
    let updated = change("x", Some("1"), Some("2"));
    let added = change("x", None, Some("2"));
    let removed = change("x", Some("1"), None);
    assert_eq!(plan_change(&updated), ChangePlan::Both);
    assert_eq!(plan_change(&added), ChangePlan::New);
    assert_eq!(plan_change(&removed), ChangePlan::Nothing);

    let new = || report("2", vec![signal(SignalKind::Ffi, "a.rs", 1, "f")], &["d"]);
    let r = resolve_change(removed, Scanned::Nothing);
    assert!(r.diff.is_none() && r.error.is_none());
    assert_eq!(r.old_version.as_deref(), Some("1"));
    assert_eq!(r.new_version, None);

    let r = resolve_change(added, Scanned::New(new()));
    let diff = r.diff.unwrap();
    assert!(r.error.is_none());
    assert_eq!(diff.added.len(), 1);
    assert_eq!(diff.added_dependencies, vec!["d"]);
    assert!(diff.removed.is_empty());
    assert_eq!(diff.old, ("x".to_string(), String::new()));

    let r = resolve_change(updated, Scanned::Both(new(), new()));
    assert!(r.diff.unwrap().added.is_empty());

    let r = resolve_change(
        change("x", Some("1"), Some("2")),
        Scanned::Failed("no network".to_string()),
    );
    assert!(r.diff.is_none());
    assert_eq!(r.error.as_deref(), Some("no network"));
    assert!(nothing_scanned("x").signals.is_empty());
}

#[test]
fn the_last_pinned_version_is_given() {
    let list = vec![locked("a", "1.0.0"), locked("b", "3.0.0"), locked("a", "2.0.0")];
    assert_eq!(pinned_version(&list, "a"), Some("2.0.0".to_string()));
    assert_eq!(pinned_version(&list, "b"), Some("3.0.0".to_string()));
    assert_eq!(pinned_version(&list, "c"), None);
}

#[test]
fn a_copied_entry_holds_the_same() {
    let signals = vec![signal(SignalKind::Ffi, "a.rs", 1, "x")];
    let original = entry("a", "1.0.0", "2.0.0", signals, &["d"]);
    let copy = original.clone();
    assert_eq!(copy.name, "a");
    assert_eq!(copy.locked_version, "1.0.0");
    assert_eq!(copy.latest_version, "2.0.0");
    let diff = copy.diff.unwrap();
    assert_eq!(details(&diff.added), ["x"]);
    assert_eq!(diff.added_dependencies, ["d"]);
    assert!(up_to_date("b").clone().diff.is_none());
}

#[test]
fn an_audit_fails_by_all_entries_whatever_is_listed() {
    let all = vec![
        entry("a", "1", "2", vec![signal(SignalKind::UnsafeBlock, "a.rs", 1, "x")], &[]),
        entry("b", "1", "2", vec![signal(SignalKind::EnvRead, "b.rs", 1, "y")], &[]),
        up_to_date("c"),
    ];
    let names = |list: &Vec<AuditEntry>| -> Vec<String> {
        list.iter().map(|e| e.name.clone()).collect()
    };
    let cases: [(Option<Severity>, &[&str]); 4] = [
        (None, &["a", "b", "c"]),
        (Some(Severity::Low), &["a", "b"]),
        (Some(Severity::Medium), &["a"]),
        (Some(Severity::High), &[]),
    ];
    for (min, expected) in cases {
        let (code, listed) = audit_outcome(&all, min);
        assert_eq!(code, 1);
        assert_eq!(names(&listed), expected);
    }
    assert_eq!(audit_outcome(&vec![], None).0, 0);
}
