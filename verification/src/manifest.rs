//! What a crate's manifest says about its capabilities.
use crate::document::{find_text, is_true_at, keys_of, Document, DocumentView};
use crate::names::sort_and_dedup;
use crate::signal::{signal_views, Signal, SignalKind, SignalView};
use crate::text::texts;
use vstd::prelude::*;

verus! {

/// The manifest declares a proc-macro crate: `lib.proc-macro = true`.
pub open spec fn declares_proc_macro(manifest: DocumentView) -> bool {
    match crate::document::table_at(manifest, "lib"@) {
        Some(lib) => crate::document::true_at(lib, "proc-macro"@),
        None => false,
    }
}

/// The native library that the manifest links: `package.links`.
pub open spec fn linked_library(manifest: DocumentView) -> Option<Seq<char>> {
    match crate::document::table_at(manifest, "package"@) {
        Some(package) => crate::document::text_at(package, "links"@),
        None => None,
    }
}

/// The signals that a manifest gives.
pub open spec fn manifest_signals(manifest: DocumentView) -> Seq<SignalView> {
    crate::classify::signal_if(
        declares_proc_macro(manifest),
        SignalKind::ProcMacroCrate,
        "Cargo.toml"@,
        0,
        "lib.proc-macro = true"@,
    ) + match linked_library(manifest) {
        Some(library) => crate::classify::signal_if(
            true,
            SignalKind::NativeLinkage,
            "Cargo.toml"@,
            0,
            "links = \""@ + library + "\""@,
        ),
        None => Seq::empty(),
    }
}

/// Gives the signals of a manifest.
pub fn find_manifest_signals(manifest: &Document) -> (r: Vec<Signal>)
    ensures
        signal_views(r@) == manifest_signals(manifest@),
{
    let mut r: Vec<Signal> = Vec::new();
    if let Some(lib) = manifest.table("lib") {
        if is_true_at(lib, "proc-macro") {
            r.push(
                Signal {
                    kind: SignalKind::ProcMacroCrate,
                    file: "Cargo.toml".to_owned(),
                    line: 0,
                    detail: "lib.proc-macro = true".to_owned(),
                },
            );
        }
    }
    if let Some(package) = manifest.table("package") {
        if let Some(library) = find_text(package, "links") {
            let mut detail = "links = \"".to_owned();
            detail.append(library.as_str());
            detail.append("\"");
            r.push(
                Signal {
                    kind: SignalKind::NativeLinkage,
                    file: "Cargo.toml".to_owned(),
                    line: 0,
                    detail,
                },
            );
        }
    }
    assert(signal_views(r@) =~= manifest_signals(manifest@));
    r
}

/// The names in a table of dependencies.
pub open spec fn named_under(manifest: DocumentView, key: Seq<char>) -> Seq<Seq<char>> {
    match crate::document::table_at(manifest, key) {
        Some(table) => crate::document::field_keys(table),
        None => Seq::empty(),
    }
}

/// The dependencies that a manifest declares for the crate and for its build script.
pub open spec fn declared_dependencies(manifest: DocumentView) -> Seq<Seq<char>> {
    named_under(manifest, "dependencies"@) + named_under(manifest, "build-dependencies"@)
}

/// Lists the dependencies that a manifest declares, each once, in order.
pub fn find_dependencies(manifest: &Document) -> (r: Vec<String>)
    ensures
        crate::names::is_sorted_set(declared_dependencies(manifest@), texts(r@)),
{
    let mut names: Vec<String> = match manifest.table("dependencies") {
        Some(table) => keys_of(table),
        None => Vec::new(),
    };
    assert(texts(names@) =~= named_under(manifest@, "dependencies"@));
    if let Some(table) = manifest.table("build-dependencies") {
        let mut more = keys_of(table);
        let ghost first = names@;
        let ghost second = more@;
        names.append(&mut more);
        assert(texts(names@) =~= texts(first) + texts(second));
    }
    assert(texts(names@) =~= declared_dependencies(manifest@));
    sort_and_dedup(names)
}

/// What a manifest says depends on three values and two tables only: `lib.proc-macro`,
/// `package.links`, and the keys of `dependencies` and `build-dependencies`.
pub proof fn manifest_is_read_at_its_keys(
    manifest: DocumentView,
    name: Seq<char>,
)
    ensures
        match crate::document::table_at(manifest, "lib"@) {
            Some(lib) => declares_proc_macro(manifest) == crate::document::true_at(
                lib,
                "proc-macro"@,
            ),
            None => !declares_proc_macro(manifest),
        },
        match crate::document::table_at(manifest, "package"@) {
            Some(package) => linked_library(manifest) == crate::document::text_at(
                package,
                "links"@,
            ),
            None => linked_library(manifest) is None,
        },
        declared_dependencies(manifest).contains(name) <==> {
            ||| crate::document::table_at(manifest, "dependencies"@) matches Some(table)
                && crate::document::field_keys(table).contains(name)
            ||| crate::document::table_at(manifest, "build-dependencies"@) matches Some(table)
                && crate::document::field_keys(table).contains(name)
        },
{
    let first = named_under(manifest, "dependencies"@);
    let second = named_under(manifest, "build-dependencies"@);
    let all = declared_dependencies(manifest);
    if all.contains(name) {
        let i = all.index_of(name);
        if i < first.len() {
            assert(first[i] == name);
        } else {
            assert(second[i - first.len()] == name);
        }
    }
    if first.contains(name) {
        assert(all[first.index_of(name)] == name);
    }
    if second.contains(name) {
        assert(all[first.len() + second.index_of(name)] == name);
    }
}

/// A manifest gives one signal where it declares a proc-macro crate and one where it links
/// a library, in this order, and no others.
pub proof fn manifest_gives_at_most_two_signals(manifest: DocumentView)
    ensures
        ({
            let macros = SignalView {
                kind: SignalKind::ProcMacroCrate,
                file: "Cargo.toml"@,
                line: 0,
                detail: "lib.proc-macro = true"@,
            };
            match linked_library(manifest) {
                Some(library) => {
                    let links = SignalView {
                        kind: SignalKind::NativeLinkage,
                        file: "Cargo.toml"@,
                        line: 0,
                        detail: "links = \""@ + library + "\""@,
                    };
                    &&& declares_proc_macro(manifest) ==> manifest_signals(manifest) == seq![
                        macros,
                        links,
                    ]
                    &&& !declares_proc_macro(manifest) ==> manifest_signals(manifest) == seq![links]
                },
                None => {
                    &&& declares_proc_macro(manifest) ==> manifest_signals(manifest) == seq![macros]
                    &&& !declares_proc_macro(manifest) ==> manifest_signals(manifest).len() == 0
                },
            }
        }),
{
    let macros = SignalView {
        kind: SignalKind::ProcMacroCrate,
        file: "Cargo.toml"@,
        line: 0,
        detail: "lib.proc-macro = true"@,
    };
    if let Some(library) = linked_library(manifest) {
        let links = SignalView {
            kind: SignalKind::NativeLinkage,
            file: "Cargo.toml"@,
            line: 0,
            detail: "links = \""@ + library + "\""@,
        };
        if declares_proc_macro(manifest) {
            assert(manifest_signals(manifest) =~= seq![macros, links]);
        } else {
            assert(manifest_signals(manifest) =~= seq![links]);
        }
    } else if declares_proc_macro(manifest) {
        assert(manifest_signals(manifest) =~= seq![macros]);
    }
}

} // verus!
