use capscan::classify::{classify_call, classify_nodes, path_str};
use capscan::scan::{can_scan, has_rust_name, parse_source, prunes, scans};
use capscan::syntax::Node;
use capscan::{scan_dir, CrateDir, CrateReport, SignalKind, SourceFile};

fn file(path: &str, text: &str) -> SourceFile {
    SourceFile {
        components: path.split('/').map(|name| name.to_string()).collect(),
        path: path.to_string(),
        text: text.to_string(),
    }
}

fn crate_of(files: Vec<SourceFile>, has_build_script: bool, manifest: Option<&str>) -> CrateDir {
    CrateDir {
        files,
        has_build_script,
        manifest: manifest.map(|text| text.to_string()),
    }
}

fn shown(report: &CrateReport) -> Vec<String> {
    report
        .signals
        .iter()
        .map(|s| format!("{}:{} {} {}", s.file, s.line, s.kind.label(), s.detail))
        .collect()
}

fn signals_of(text: &str) -> Vec<String> {
    let dir = crate_of(vec![file("src/lib.rs", text)], false, None);
    shown(&scan_dir("x", "0.1.0", &dir))
}

#[test]
fn signals_carry_file_line_and_detail_in_source_order() {
    let text = "pub struct S<T>(T);\n\
                unsafe impl<T> Send for S<T> {}\n\
                #[no_mangle]\n\
                pub unsafe extern \"C\" fn go() {\n\
                \x20   std::env::set_var(\"A\", std::env::var(\"B\").unwrap());\n\
                }\n\
                extern \"system\" {\n\
                \x20   fn a();\n\
                \x20   static B: u8;\n\
                }\n";
    assert_eq!(
        signals_of(text),
        vec![
            "src/lib.rs:2 unsafe impl S < T >",
            "src/lib.rs:3 unsafe fn go",
            "src/lib.rs:3 exported symbol go",
            "src/lib.rs:5 env write std::env::set_var",
            "src/lib.rs:5 env read std::env::var",
            "src/lib.rs:7 extern FFI block extern \"system\" { 2 item(s) }",
        ]
    );
}

#[test]
fn unsafe_block_comes_before_what_it_holds() {
    let text = "fn f() {\n    unsafe {\n        std::process::Command::new(\"ls\");\n    }\n}\n";
    assert_eq!(
        signals_of(text),
        vec![
            "src/lib.rs:2 unsafe block unsafe { .. }",
            "src/lib.rs:3 process spawn std::process::Command::new",
        ]
    );
}

#[test]
fn a_call_among_the_arguments_comes_after_the_outer_call() {
    let text = "fn f() { std::fs::write(\"a\", std::env::var(\"B\").unwrap()); }\n";
    assert_eq!(
        signals_of(text),
        vec![
            "src/lib.rs:1 filesystem write std::fs::write",
            "src/lib.rs:1 env read std::env::var",
        ]
    );
}

#[test]
fn what_lies_below_each_part_is_met() {
    let text = "static S: u8 = { unsafe { g() } };\n\
                impl T for U {\n\
                \x20   fn m() { env!(\"A\"); }\n\
                }\n\
                fn outer() { unsafe fn inner() { fs::rename(1, 2); } }\n\
                extern \"C\" {\n\
                \x20   fn a(x: [u8; { env::var(1); 1 }]);\n\
                }\n";
    assert_eq!(
        signals_of(text),
        vec![
            "src/lib.rs:1 unsafe block unsafe { .. }",
            "src/lib.rs:3 build-time macro env",
            "src/lib.rs:5 unsafe fn inner",
            "src/lib.rs:5 filesystem write fs::rename",
            "src/lib.rs:6 extern FFI block extern \"C\" { 1 item(s) }",
            "src/lib.rs:7 env read env::var",
        ]
    );
}

#[test]
fn foreign_block_without_abi_shows_an_empty_one() {
    assert_eq!(
        signals_of("extern {\n    fn a();\n}\n"),
        vec!["src/lib.rs:1 extern FFI block extern \"\" { 1 item(s) }"]
    );
}

#[test]
fn safe_code_gives_no_signals() {
    let text = "impl S { fn f(&self) { (self.g)(); h(); println!(\"x\"); } }\n\
                fn h() {}\n\
                #[inline]\n\
                fn i() { std::fs::read(\"a\"); std::env!(\"A\"); }\n";
    assert!(signals_of(text).is_empty());
}

#[test]
fn symbols_are_exported_by_statics_and_methods_too() {
    let text = "#[no_mangle]\npub static TABLE: u8 = 0;\n\
                impl S {\n    #[export_name = \"m\"]\n    pub fn method() {}\n}\n\
                static OTHER: u8 = 0;\n";
    assert_eq!(
        signals_of(text),
        vec![
            "src/lib.rs:1 exported symbol TABLE",
            "src/lib.rs:4 exported symbol method",
        ]
    );
}

#[test]
fn build_time_macros_are_matched_by_their_whole_path() {
    let text = "const A: &str = include_str!(\"a\");\n\
                const B: &[u8] = include_bytes!(\"b\");\n\
                const C: Option<&str> = option_env!(\"C\");\n\
                include!(\"d.rs\");\n\
                fn e() { env!(\"E\"); std::env!(\"F\"); my_env!(\"G\"); }\n";
    assert_eq!(
        signals_of(text),
        vec![
            "src/lib.rs:1 build-time macro include_str",
            "src/lib.rs:2 build-time macro include_bytes",
            "src/lib.rs:3 build-time macro option_env",
            "src/lib.rs:4 build-time macro include",
            "src/lib.rs:5 build-time macro env",
        ]
    );
}

#[test]
fn calls_are_classified_by_their_path() {
    let cases = [
        ("Command::new", Some(SignalKind::ProcessSpawn)),
        ("tokio::process::Command::new", Some(SignalKind::ProcessSpawn)),
        ("MyCommand::new", Some(SignalKind::ProcessSpawn)),
        ("Command::new_with", None),
        ("TcpStream::connect", Some(SignalKind::NetworkAccess)),
        ("std::net::TcpListener::bind", Some(SignalKind::NetworkAccess)),
        ("UdpSocket::bind", Some(SignalKind::NetworkAccess)),
        ("UnixStream::connect", Some(SignalKind::NetworkAccess)),
        ("reqwest::get", Some(SignalKind::NetworkAccess)),
        ("hyper::Client::new", Some(SignalKind::NetworkAccess)),
        ("ureq::get", Some(SignalKind::NetworkAccess)),
        ("my_reqwest::get", None),
        ("std::fs::write", Some(SignalKind::FilesystemWrite)),
        ("File::create", Some(SignalKind::FilesystemWrite)),
        ("remove_file", Some(SignalKind::FilesystemWrite)),
        ("fs::remove_dir_all", Some(SignalKind::FilesystemWrite)),
        ("fs::remove_dir", Some(SignalKind::FilesystemWrite)),
        ("OpenOptions::new", Some(SignalKind::FilesystemWrite)),
        ("fs::rename", Some(SignalKind::FilesystemWrite)),
        ("fs::set_permissions", Some(SignalKind::FilesystemWrite)),
        ("fs::read", None),
        ("env::set_var", Some(SignalKind::EnvWrite)),
        ("env::remove_var", Some(SignalKind::EnvWrite)),
        ("env::var", Some(SignalKind::EnvRead)),
        ("env::vars", Some(SignalKind::EnvRead)),
        ("env::var_os", Some(SignalKind::EnvRead)),
        ("env::args", None),
        ("mem::transmute", Some(SignalKind::Transmute)),
        ("core::mem::transmute_copy", Some(SignalKind::Transmute)),
        ("", None),
    ];
    for (path, kind) in cases {
        assert_eq!(classify_call(path), kind, "{path}");
    }
}

#[test]
fn a_path_before_a_call_changes_its_kind_only_by_the_network() {
    for path in ["Command::new", "fs::write", "env::var", "env::set_var", "mem::transmute"] {
        assert_eq!(classify_call(&format!("a::b::{path}")), classify_call(path), "{path}");
        assert!(classify_call(path).is_some(), "{path}");
    }
    assert_eq!(classify_call("reqwest::fs::write"), Some(SignalKind::NetworkAccess));
    assert_eq!(classify_call("TcpStream::env::var"), Some(SignalKind::NetworkAccess));
    assert_eq!(classify_call("reqwest::Command::new"), Some(SignalKind::ProcessSpawn));
    assert_eq!(classify_call("a::reqwest::get"), None);
}

#[test]
fn path_is_written_with_colons() {
    let names = |list: &[&str]| -> Vec<String> { list.iter().map(|s| s.to_string()).collect() };
    assert_eq!(path_str(&names(&["std", "fs", "write"])), "std::fs::write");
    assert_eq!(path_str(&names(&["f"])), "f");
    assert_eq!(path_str(&names(&[])), "");
}

#[test]
fn nodes_are_classified_without_a_parser() {
    let nodes = vec![
        Node::UnsafeBlock { line: 4 },
        Node::Impl { line: 5, is_unsafe: false, self_type: "S".to_string() },
        Node::Call { line: 6, callee: None },
        Node::Call { line: 7, callee: Some(vec!["fs".to_string(), "write".to_string()]) },
    ];
    let found = classify_nodes("a.rs", &nodes);
    assert_eq!(found.len(), 2);
    assert_eq!(found[0].kind, SignalKind::UnsafeBlock);
    assert_eq!(found[0].line, 4);
    assert_eq!(found[1].kind, SignalKind::FilesystemWrite);
    assert_eq!(found[1].file, "a.rs");
    assert_eq!(found[1].line, 7);
    assert_eq!(found[1].detail, "fs::write");
}

#[test]
fn lines_are_counted_even_where_a_file_does_not_parse() {
    let dir = crate_of(
        vec![
            file("src/lib.rs", "fn f() {}\n\nfn g() {}"),
            file("src/broken.rs", "fn {{{\nx\n"),
            file("notes.md", "a\nb\nc\n"),
            file("target/gen.rs", "a\nb\nc\n"),
        ],
        false,
        None,
    );
    let report = scan_dir("x", "0.1.0", &dir);
    assert_eq!(report.files_scanned, 1);
    assert_eq!(report.lines_scanned, 5);
    assert_eq!(report.name, "x");
    assert_eq!(report.version, "0.1.0");
}

#[test]
fn positions_do_not_depend_on_what_was_parsed_before() {
    let text = "\n\nunsafe fn late() {}\n";
    let first = signals_of(text);
    signals_of("fn a() {}\nfn b() {}\n");
    assert_eq!(signals_of(text), first);
    assert_eq!(first, vec!["src/lib.rs:3 unsafe fn late"]);
}

#[test]
fn shebang_and_byte_order_mark_are_no_obstacle() {
    assert_eq!(
        signals_of("#!/usr/bin/env run\nunsafe fn f() {}\n"),
        vec!["src/lib.rs:2 unsafe fn f"]
    );
    assert_eq!(
        signals_of("\u{feff}unsafe fn f() {}\n"),
        vec!["src/lib.rs:1 unsafe fn f"]
    );
}

#[test]
fn parsed_source_tells_its_length_and_parts() {
    let parsed = parse_source("a.rs", "fn f() {}\nunsafe fn g() {}\n");
    assert_eq!(parsed.path, "a.rs");
    assert_eq!(parsed.lines, 2);
    assert_eq!(parsed.nodes.unwrap().len(), 2);
    assert!(parse_source("b.rs", "fn").nodes.is_none());
}

#[test]
fn build_script_and_manifest_come_last() {
    let manifest = "[package]\nname = \"x\"\nlinks = \"z\"\n\
                    [lib]\nproc-macro = true\n\
                    [dependencies]\nsyn = \"2\"\nquote = \"1\"\n\
                    [build-dependencies]\ncc = \"1\"\nsyn = { version = \"2\" }\n\
                    [dev-dependencies]\nrand = \"0.8\"\n";
    let dir = crate_of(
        vec![file("src/lib.rs", "unsafe fn f() {}\n")],
        true,
        Some(manifest),
    );
    let report = scan_dir("x", "0.1.0", &dir);
    assert_eq!(
        shown(&report),
        vec![
            "src/lib.rs:1 unsafe fn f",
            "build.rs:0 build.rs script build script present",
            "Cargo.toml:0 proc-macro crate lib.proc-macro = true",
            "Cargo.toml:0 native library linkage links = \"z\"",
        ]
    );
    assert_eq!(report.dependencies, vec!["cc", "quote", "syn"]);
}

#[test]
fn broken_or_odd_manifests_give_nothing() {
    for manifest in [
        "not = = toml",
        "",
        "lib = 1\npackage = \"x\"\ndependencies = [1, 2]\n",
        "[lib]\nproc-macro = \"true\"\n[package]\nlinks = 3\n",
        "[lib]\nproc-macro = false\n",
    ] {
        let report = scan_dir("x", "0.1.0", &crate_of(vec![], false, Some(manifest)));
        assert!(report.signals.is_empty(), "{manifest}");
        assert!(report.dependencies.is_empty(), "{manifest}");
    }
}

#[test]
fn only_rust_files_outside_pruned_directories_are_scanned() {
    let is_scanned = |path: &str| scans(&file(path, "").components);
    assert!(is_scanned("build.rs"));
    assert!(is_scanned("src/a.b.rs"));
    assert!(is_scanned("src/targets/a.rs"));
    assert!(!is_scanned("target/a.rs"));
    assert!(!is_scanned("src/target/deep/a.rs"));
    assert!(!is_scanned("x/.git/a.rs"));
    assert!(!is_scanned("src/a.rss"));
    assert!(!is_scanned("src/rs"));
    assert!(!is_scanned("src/.rs"));
    assert!(!scans(&vec![]));
    assert!(has_rust_name("..rs"));
    assert!(!has_rust_name("a.RS"));
    assert!(prunes("target"));
    assert!(prunes(".git"));
    assert!(!prunes("src"));
}

#[test]
fn a_file_that_is_not_scanned_has_no_part_in_the_report() {
    let plain = crate_of(vec![file("src/lib.rs", "unsafe fn f() {}\n")], false, None);
    let more = crate_of(
        vec![
            file("target/a.rs", "unsafe fn ghost() {}\n"),
            file("src/lib.rs", "unsafe fn f() {}\n"),
            file(".git/b.rs", "unsafe fn ghost() {}\n"),
        ],
        false,
        None,
    );
    let (a, b) = (scan_dir("x", "1", &plain), scan_dir("x", "1", &more));
    assert_eq!(a.signals, b.signals);
    assert_eq!(a.files_scanned, b.files_scanned);
    assert_eq!(a.lines_scanned, b.lines_scanned);
}

#[test]
fn ordinary_crates_can_be_scanned() {
    assert!(can_scan(&crate_of(vec![file("src/lib.rs", "fn f() {}\n")], false, None)));
}

#[test]
fn positions_that_a_caller_holds_stay_valid() {
    let tokens = "a\n\nb".parse::<proc_macro2::TokenStream>().unwrap();
    let last = tokens.into_iter().last().unwrap();
    let found = signals_of("\nunsafe fn f() {}\n");
    assert_eq!(found, vec!["src/lib.rs:2 unsafe fn f"]);
    assert_eq!(last.span().start().line, 3);
    assert_eq!(signals_of("\nunsafe fn f() {}\n"), found);
}

#[test]
fn lines_run_from_one_to_the_last_of_the_file() {
    for text in [
        "unsafe fn f() {}",
        "\n\nunsafe fn f() {}",
        "unsafe fn f() {}\n\n",
        "#!/bin/run\n\nunsafe fn f() {}",
        "\u{feff}\nunsafe fn f() {}",
        "/// a\n/// b\nunsafe fn f() {}",
        "/** a\nb */\nunsafe fn f() { unsafe {\ng(-1) } }",
    ] {
        let dir = crate_of(vec![file("src/lib.rs", text)], true, None);
        let report = scan_dir("x", "0.1.0", &dir);
        assert!(report.signals.len() >= 2, "{text}");
        for s in &report.signals {
            if s.kind == SignalKind::BuildScript {
                assert_eq!(s.line, 0);
            } else {
                assert!(1 <= s.line && s.line <= report.lines_scanned, "{text}");
            }
        }
    }
}
