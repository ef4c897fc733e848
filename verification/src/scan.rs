//! Scanning the source of a crate.
use crate::classify::classify_nodes;
use crate::document::{parse_document, Document, DocumentView};
use crate::manifest::{find_dependencies, find_manifest_signals};
use crate::report::{CrateReport, ReportView};
use crate::signal::{signal_views, Signal, SignalKind, SignalView};
use crate::syntax::{are_within, node_views, outline, Node, NodeView, MAX_SOURCE};
use crate::text::{chars_of, count_lines, ends_with, is_same, texts};
use vstd::prelude::*;

verus! {

/// A file of a crate.
pub struct SourceFile {
    /// The names from the root of the crate down to the file.
    pub components: Vec<String>,
    /// The path below the root, as it is shown.
    pub path: String,
    pub text: String,
}

/// What was read from the directory of a crate.
pub struct CrateDir {
    /// The files, in the order in which they were found.
    pub files: Vec<SourceFile>,
    /// Whether there is a build script at the root.
    pub has_build_script: bool,
    /// The manifest, where it could be read.
    pub manifest: Option<String>,
}

/// What a [`SourceFile`] holds.
pub struct SourceFileView {
    pub components: Seq<Seq<char>>,
    pub path: Seq<char>,
    pub text: Seq<char>,
}

/// What a [`CrateDir`] holds.
pub struct CrateDirView {
    pub files: Seq<SourceFileView>,
    pub has_build_script: bool,
    pub manifest: Option<Seq<char>>,
}

impl View for SourceFile {
    type V = SourceFileView;

    open spec fn view(&self) -> SourceFileView {
        SourceFileView {
            components: texts(self.components@),
            path: self.path@,
            text: self.text@,
        }
    }
}

impl View for CrateDir {
    type V = CrateDirView;

    open spec fn view(&self) -> CrateDirView {
        CrateDirView {
            files: self.files@.map_values(|f: SourceFile| f@),
            has_build_script: self.has_build_script,
            manifest: match self.manifest {
                Some(text) => Some(text@),
                None => None,
            },
        }
    }
}

/// A name below which nothing is scanned.
pub open spec fn is_pruned(name: Seq<char>) -> bool {
    ||| name == "target"@
    ||| name == ".git"@
}

/// Tells whether nothing below a directory of this name is scanned.
pub fn prunes(name: &str) -> (r: bool)
    ensures
        r == is_pruned(name@),
{
    is_same(name, "target") || is_same(name, ".git")
}

/// A file name with the extension `rs`.
pub open spec fn is_rust_name(name: Seq<char>) -> bool {
    &&& ".rs"@.is_suffix_of(name)
    &&& name != ".rs"@
}

/// Tells whether a file name has the extension `rs`.
pub fn has_rust_name(name: &str) -> (r: bool)
    ensures
        r == is_rust_name(name@),
{
    ends_with(&chars_of(name), ".rs") && !is_same(name, ".rs")
}

/// A file that is scanned: it has the extension `rs`, and no name on the way down to it
/// is one below which nothing is scanned.
pub open spec fn is_scanned(components: Seq<Seq<char>>) -> bool {
    &&& components.len() > 0
    &&& is_rust_name(components.last())
    &&& forall|i: int| 0 <= i < components.len() ==> !is_pruned(#[trigger] components[i])
}

/// Tells whether a file is scanned, given the names from the root down to it.
pub fn scans(components: &Vec<String>) -> (r: bool)
    ensures
        r == is_scanned(texts(components@)),
{
    for i in 0..components.len()
        invariant
            forall|k: int| 0 <= k < i ==> !is_pruned(#[trigger] texts(components@)[k]),
    {
        if prunes(components[i].as_str()) {
            assert(is_pruned(texts(components@)[i as int]));
            return false;
        }
    }
    components.len() > 0 && has_rust_name(components[components.len() - 1].as_str())
}

/// A file that was scanned: how long it is, and its parts where it could be parsed.
pub struct ParsedFile {
    pub path: String,
    pub lines: usize,
    pub nodes: Option<Vec<Node>>,
}

/// What a [`ParsedFile`] holds.
pub struct ParsedFileView {
    pub path: Seq<char>,
    pub lines: nat,
    pub nodes: Option<Seq<NodeView>>,
}

impl View for ParsedFile {
    type V = ParsedFileView;

    open spec fn view(&self) -> ParsedFileView {
        ParsedFileView {
            path: self.path@,
            lines: self.lines as nat,
            nodes: match self.nodes {
                Some(nodes) => Some(node_views(nodes@)),
                None => None,
            },
        }
    }
}

/// What scanned files hold.
pub open spec fn parsed_views(files: Seq<ParsedFile>) -> Seq<ParsedFileView> {
    files.map_values(|f: ParsedFile| f@)
}

/// The lines of all files.
pub open spec fn total_lines(files: Seq<ParsedFileView>) -> nat
    decreases files.len(),
{
    if files.len() == 0 {
        0
    } else {
        total_lines(files.drop_last()) + files.last().lines
    }
}

/// How many files could be parsed.
pub open spec fn parsed_count(files: Seq<ParsedFileView>) -> nat
    decreases files.len(),
{
    if files.len() == 0 {
        0
    } else {
        parsed_count(files.drop_last()) + if files.last().nodes is Some {
            1nat
        } else {
            0nat
        }
    }
}

/// The signals of a file; one that could not be parsed has none.
pub open spec fn signals_of_file(file: ParsedFileView) -> Seq<SignalView> {
    match file.nodes {
        Some(nodes) => crate::classify::signals_of_nodes(file.path, nodes),
        None => Seq::empty(),
    }
}

/// The signals of all files, in the order of the files.
pub open spec fn signals_of_files(files: Seq<ParsedFileView>) -> Seq<SignalView>
    decreases files.len(),
{
    if files.len() == 0 {
        Seq::empty()
    } else {
        signals_of_files(files.drop_last()) + signals_of_file(files.last())
    }
}

/// The signal of a build script.
pub open spec fn build_script_signals(has_build_script: bool) -> Seq<SignalView> {
    crate::classify::signal_if(
        has_build_script,
        SignalKind::BuildScript,
        "build.rs"@,
        0,
        "build script present"@,
    )
}

/// The signals of a manifest that may be missing or broken.
pub open spec fn signals_of_manifest(manifest: Option<DocumentView>) -> Seq<SignalView> {
    match manifest {
        Some(document) => crate::manifest::manifest_signals(document),
        None => Seq::empty(),
    }
}

/// The dependencies of a manifest that may be missing or broken.
pub open spec fn dependencies_of_manifest(manifest: Option<DocumentView>) -> Seq<Seq<char>> {
    match manifest {
        Some(document) => crate::manifest::declared_dependencies(document),
        None => Seq::empty(),
    }
}

/// `report` is the report on a crate, given what was parsed of it.
pub open spec fn is_report(
    name: Seq<char>,
    version: Seq<char>,
    files: Seq<ParsedFileView>,
    has_build_script: bool,
    manifest: Option<DocumentView>,
    report: ReportView,
) -> bool {
    &&& report.name == name
    &&& report.version == version
    &&& report.files_scanned == parsed_count(files)
    &&& report.lines_scanned == total_lines(files)
    &&& report.signals == signals_of_files(files) + build_script_signals(has_build_script)
        + signals_of_manifest(manifest)
    &&& crate::names::is_sorted_set(dependencies_of_manifest(manifest), report.dependencies)
}

proof fn total_lines_grows(files: Seq<ParsedFileView>, n: int)
    requires
        0 <= n <= files.len(),
    ensures
        total_lines(files.take(n)) <= total_lines(files),
    decreases files.len(),
{
    if n == files.len() {
        assert(files.take(n) =~= files);
    } else {
        total_lines_grows(files.drop_last(), n);
        assert(files.drop_last().take(n) =~= files.take(n));
    }
}

/// Puts the report on a crate together from what was parsed of it.
pub fn assemble_report(
    name: &str,
    version: &str,
    files: &Vec<ParsedFile>,
    has_build_script: bool,
    manifest: &Option<Document>,
) -> (r: CrateReport)
    requires
        total_lines(parsed_views(files@)) <= usize::MAX,
    ensures
        is_report(
            name@,
            version@,
            parsed_views(files@),
            has_build_script,
            match *manifest {
                Some(document) => Some(document@),
                None => None,
            },
            r@,
        ),
{
    let ghost all = parsed_views(files@);
    let mut signals: Vec<Signal> = Vec::new();
    let mut files_scanned: usize = 0;
    let mut lines_scanned: usize = 0;
    assert(signal_views(signals@) =~= Seq::empty());
    for i in 0..files.len()
        invariant
            all == parsed_views(files@),
            total_lines(all) <= usize::MAX,
            signal_views(signals@) == signals_of_files(all.take(i as int)),
            files_scanned == parsed_count(all.take(i as int)),
            files_scanned <= i,
            lines_scanned == total_lines(all.take(i as int)),
    {
        proof {
            total_lines_grows(all, i + 1);
            assert(all.take(i + 1).drop_last() =~= all.take(i as int));
            assert(all.take(i + 1).last() == files@[i as int]@);
        }
        lines_scanned = lines_scanned + files[i].lines;
        if let Some(nodes) = &files[i].nodes {
            files_scanned = files_scanned + 1;
            let mut found = classify_nodes(files[i].path.as_str(), nodes);
            let ghost before = signals@;
            let ghost added = found@;
            signals.append(&mut found);
            assert(signal_views(signals@) =~= signal_views(before) + signal_views(added));
        } else {
            assert(signal_views(signals@) =~= signal_views(signals@) + Seq::empty());
        }
    }
    assert(all.take(all.len() as int) =~= all);
    if has_build_script {
        signals.push(
            Signal {
                kind: SignalKind::BuildScript,
                file: "build.rs".to_owned(),
                line: 0,
                detail: "build script present".to_owned(),
            },
        );
    }
    assert(signal_views(signals@) =~= signals_of_files(all) + build_script_signals(
        has_build_script,
    ));
    let mut dependencies: Vec<String> = Vec::new();
    assert(texts(dependencies@) =~= Seq::empty());
    if let Some(document) = manifest {
        let mut found = find_manifest_signals(document);
        let ghost before = signals@;
        let ghost added = found@;
        signals.append(&mut found);
        assert(signal_views(signals@) =~= signal_views(before) + signal_views(added));
        dependencies = find_dependencies(document);
    } else {
        assert(signal_views(signals@) =~= signal_views(signals@) + Seq::empty());
    }
    CrateReport {
        name: name.to_owned(),
        version: version.to_owned(),
        files_scanned,
        lines_scanned,
        dependencies,
        signals,
    }
}

/// The parts of a file start on its lines.
pub open spec fn is_placed(file: ParsedFileView) -> bool {
    file.nodes matches Some(nodes) ==> are_within(nodes, file.lines)
}

/// The parts of each file start on its lines.
pub open spec fn are_placed(files: Seq<ParsedFileView>) -> bool {
    forall|i: int| 0 <= i < files.len() ==> is_placed(#[trigger] files[i])
}

/// The kinds that come from the directory and the manifest, not from Rust files.
pub open spec fn is_crate_kind(kind: SignalKind) -> bool {
    kind is BuildScript || kind is ProcMacroCrate || kind is NativeLinkage
}

/// A signal names a file and one of its lines.
pub open spec fn stands_in(files: Seq<ParsedFileView>, signal: SignalView) -> bool {
    exists|k: int|
        0 <= k < files.len() && (#[trigger] files[k]).path == signal.file && 1 <= signal.line
            <= files[k].lines
}

/// A signal of the crate as a whole has line 0, and any other names a file and one of its
/// lines.
pub open spec fn has_place(files: Seq<ParsedFileView>, signal: SignalView) -> bool {
    if is_crate_kind(signal.kind) {
        signal.line == 0
    } else {
        stands_in(files, signal)
    }
}

/// Each signal has its place.
pub open spec fn have_places(files: Seq<ParsedFileView>, signals: Seq<SignalView>) -> bool {
    forall|i: int| 0 <= i < signals.len() ==> has_place(files, #[trigger] signals[i])
}

/// What parsing a file gives.
pub open spec fn parsed_file(file: SourceFileView) -> ParsedFileView {
    ParsedFileView {
        path: file.path,
        lines: crate::text::line_count(file.text),
        nodes: crate::syntax::parsed_nodes(file.text),
    }
}

/// What parsing those files gives that are scanned.
pub open spec fn parsed_files(files: Seq<SourceFileView>) -> Seq<ParsedFileView>
    decreases files.len(),
{
    if files.len() == 0 {
        Seq::empty()
    } else {
        parsed_files(files.drop_last()) + if is_scanned(files.last().components) {
            seq![parsed_file(files.last())]
        } else {
            Seq::empty()
        }
    }
}

/// The characters of those files that are scanned, with one more for each.
pub open spec fn scanned_size(files: Seq<SourceFileView>) -> nat
    decreases files.len(),
{
    if files.len() == 0 {
        0
    } else {
        scanned_size(files.drop_last()) + if is_scanned(files.last().components) {
            files.last().text.len() + 1
        } else {
            0nat
        }
    }
}

/// The files that are scanned are not too large to be parsed.
pub open spec fn fits(files: Seq<SourceFileView>) -> bool {
    scanned_size(files) <= MAX_SOURCE
}

/// Files have at most as many lines as they have characters.
proof fn lines_are_bounded(files: Seq<SourceFileView>)
    ensures
        total_lines(parsed_files(files)) <= scanned_size(files),
    decreases files.len(),
{
    if files.len() > 0 {
        lines_are_bounded(files.drop_last());
        if is_scanned(files.last().components) {
            crate::text::line_count_is_bounded(files.last().text);
            assert(parsed_files(files).drop_last() =~= parsed_files(files.drop_last()));
        } else {
            assert(parsed_files(files) =~= parsed_files(files.drop_last()));
        }
    }
}

/// Some of the files are not larger than all.
proof fn scanned_size_grows(files: Seq<SourceFileView>, n: int)
    requires
        0 <= n <= files.len(),
    ensures
        scanned_size(files.take(n)) <= scanned_size(files),
    decreases files.len(),
{
    if n == files.len() {
        assert(files.take(n) =~= files);
    } else {
        scanned_size_grows(files.drop_last(), n);
        assert(files.drop_last().take(n) =~= files.take(n));
    }
}

/// Tells whether the files that are scanned are not too large to be parsed.
pub fn can_scan(dir: &CrateDir) -> (r: bool)
    ensures
        r == fits(dir@.files),
{
    let ghost all = dir@.files;
    let mut size: usize = 0;
    for i in 0..dir.files.len()
        invariant
            all == dir@.files,
            size == scanned_size(all.take(i as int)),
            size <= MAX_SOURCE,
    {
        let file = &dir.files[i];
        assert(all[i as int] == file@);
        assert(all.take(i + 1).drop_last() =~= all.take(i as int));
        if scans(&file.components) {
            let length: usize = file.text.as_str().unicode_len();
            if length >= MAX_SOURCE - size {
                proof {
                    scanned_size_grows(all, i + 1);
                }
                return false;
            }
            size = size + length + 1;
        }
    }
    assert(all.take(all.len() as int) =~= all);
    true
}

/// What a text that is taken for a manifest says.
pub open spec fn parsed_manifest(text: Option<Seq<char>>) -> Option<DocumentView> {
    match text {
        Some(text) => crate::document::parsed_document(text),
        None => None,
    }
}

/// Parses a file.
pub fn parse_source(path: &str, text: &str) -> (r: ParsedFile)
    requires
        text@.len() <= MAX_SOURCE,
    ensures
        r@.path == path@,
        r@.lines == crate::text::line_count(text@),
        r@.nodes == crate::syntax::parsed_nodes(text@),
        is_placed(r@),
{
    ParsedFile { path: path.to_owned(), lines: count_lines(text), nodes: outline(text) }
}

/// Scans what was read from the directory of a crate: every Rust file outside `target`
/// and `.git`, the build script and the manifest.
///
/// A file that does not parse on its own gives no signals and is not counted as scanned,
/// though its lines are.
pub fn scan_dir(name: &str, version: &str, dir: &CrateDir) -> (r: CrateReport)
    requires
        fits(dir@.files),
    ensures
        is_report(
            name@,
            version@,
            parsed_files(dir@.files),
            dir@.has_build_script,
            parsed_manifest(dir@.manifest),
            r@,
        ),
        are_placed(parsed_files(dir@.files)),
        have_places(parsed_files(dir@.files), r@.signals),
{
    let ghost all = dir@.files;
    let mut parsed: Vec<ParsedFile> = Vec::new();
    assert(parsed_views(parsed@) =~= Seq::empty());
    for i in 0..dir.files.len()
        invariant
            all == dir@.files,
            fits(all),
            parsed_views(parsed@) == parsed_files(all.take(i as int)),
            are_placed(parsed_views(parsed@)),
    {
        assert(all.take(i + 1).drop_last() =~= all.take(i as int));
        proof {
            scanned_size_grows(all, i + 1);
        }
        let file = &dir.files[i];
        assert(all[i as int] == file@);
        if scans(&file.components) {
            let ghost before = parsed@;
            let one = parse_source(file.path.as_str(), file.text.as_str());
            assert(one@ == parsed_file(file@));
            parsed.push(one);
            assert(parsed_views(parsed@) =~= parsed_views(before) + seq![parsed_file(file@)]);
        } else {
            assert(parsed_views(parsed@) =~= parsed_views(parsed@) + Seq::empty());
        }
    }
    assert(all.take(all.len() as int) =~= all);
    proof {
        lines_are_bounded(all);
    }
    let manifest = match &dir.manifest {
        Some(text) => parse_document(text.as_str()),
        None => None,
    };
    let report = assemble_report(name, version, &parsed, dir.has_build_script, &manifest);
    proof {
        signals_have_places(
            name@,
            version@,
            parsed_files(all),
            dir@.has_build_script,
            parsed_manifest(dir@.manifest),
            report@,
        );
    }
    report
}

/// Files are parsed one by one: those of two lists put together give what the first gives,
/// followed by what the second gives.
pub proof fn parsed_files_of_concatenation(a: Seq<SourceFileView>, b: Seq<SourceFileView>)
    ensures
        parsed_files(a + b) == parsed_files(a) + parsed_files(b),
    decreases b.len(),
{
    if b.len() == 0 {
        assert(a + b =~= a);
        assert(parsed_files(a) =~= parsed_files(a) + parsed_files(b));
    } else {
        parsed_files_of_concatenation(a, b.drop_last());
        assert((a + b).drop_last() =~= a + b.drop_last());
        assert(parsed_files(a + b) =~= parsed_files(a) + parsed_files(b));
    }
}

/// What is no Rust file, or lies below `target` or `.git`, has no part in a report,
/// wherever it is found.
pub proof fn unscanned_file_has_no_part(
    before: Seq<SourceFileView>,
    file: SourceFileView,
    after: Seq<SourceFileView>,
)
    requires
        !is_scanned(file.components),
    ensures
        parsed_files(before + seq![file] + after) == parsed_files(before + after),
{
    parsed_files_of_concatenation(before + seq![file], after);
    parsed_files_of_concatenation(before, seq![file]);
    parsed_files_of_concatenation(before, after);
    reveal_with_fuel(parsed_files, 2);
    assert(seq![file].last() == file);
    assert(parsed_files(seq![file]) =~= Seq::empty());
    assert(parsed_files(before) + Seq::empty() =~= parsed_files(before));
}

/// A file that lies below `target` or `.git`, at any depth, is not scanned.
pub proof fn pruned_file_is_not_scanned(components: Seq<Seq<char>>, at: int)
    requires
        0 <= at < components.len(),
        components[at] == "target"@ || components[at] == ".git"@,
    ensures
        !is_scanned(components),
{
    assert(is_pruned(components[at]));
}

/// A file that does not parse adds its lines to a report and nothing else.
pub proof fn unparsed_file_adds_lines_only(files: Seq<ParsedFileView>, file: ParsedFileView)
    requires
        file.nodes is None,
    ensures
        parsed_count(files.push(file)) == parsed_count(files),
        signals_of_files(files.push(file)) == signals_of_files(files),
        total_lines(files.push(file)) == total_lines(files) + file.lines,
{
    assert(files.push(file).drop_last() =~= files);
    assert(signals_of_files(files) + Seq::empty() =~= signals_of_files(files));
}

/// What was parsed of a crate determines the report on it.
pub proof fn report_is_determined(
    name: Seq<char>,
    version: Seq<char>,
    files: Seq<ParsedFileView>,
    has_build_script: bool,
    manifest: Option<DocumentView>,
    a: ReportView,
    b: ReportView,
)
    requires
        is_report(name, version, files, has_build_script, manifest, a),
        is_report(name, version, files, has_build_script, manifest, b),
    ensures
        a == b,
{
    crate::names::sorted_set_is_unique(a.dependencies, b.dependencies);
}

/// A signal of this kind is among the signals.
pub open spec fn shows(signals: Seq<SignalView>, kind: SignalKind) -> bool {
    exists|i: int| 0 <= i < signals.len() && (#[trigger] signals[i]).kind == kind
}

proof fn shows_either(a: Seq<SignalView>, b: Seq<SignalView>, kind: SignalKind)
    ensures
        shows(a + b, kind) == (shows(a, kind) || shows(b, kind)),
{
    let s = a + b;
    if shows(a, kind) {
        let i = choose|i: int| 0 <= i < a.len() && (#[trigger] a[i]).kind == kind;
        assert(s[i].kind == kind);
    }
    if shows(b, kind) {
        let i = choose|i: int| 0 <= i < b.len() && (#[trigger] b[i]).kind == kind;
        assert(s[a.len() + i].kind == kind);
    }
    if shows(s, kind) {
        let i = choose|i: int| 0 <= i < s.len() && (#[trigger] s[i]).kind == kind;
        if i < a.len() {
            assert(a[i].kind == kind);
        } else {
            assert(b[i - a.len()].kind == kind);
        }
    }
}

proof fn nodes_show_no_crate_kind(file: Seq<char>, nodes: Seq<NodeView>, kind: SignalKind)
    requires
        is_crate_kind(kind),
    ensures
        !shows(crate::classify::signals_of_nodes(file, nodes), kind),
    decreases nodes.len(),
{
    if nodes.len() > 0 {
        nodes_show_no_crate_kind(file, nodes.drop_last(), kind);
        let last = crate::classify::signals_of_node(file, nodes.last());
        shows_either(crate::classify::signals_of_nodes(file, nodes.drop_last()), last, kind);
        assert(!shows(last, kind));
    }
}

proof fn files_show_no_crate_kind(files: Seq<ParsedFileView>, kind: SignalKind)
    requires
        is_crate_kind(kind),
    ensures
        !shows(signals_of_files(files), kind),
    decreases files.len(),
{
    if files.len() > 0 {
        files_show_no_crate_kind(files.drop_last(), kind);
        if let Some(nodes) = files.last().nodes {
            nodes_show_no_crate_kind(files.last().path, nodes, kind);
        }
        shows_either(signals_of_files(files.drop_last()), signals_of_file(files.last()), kind);
    }
}

/// A report shows a build script exactly where there is one, a proc-macro crate exactly
/// where the manifest declares one, and native linkage exactly where the manifest links a
/// library.
pub proof fn report_shows_crate_kinds(
    name: Seq<char>,
    version: Seq<char>,
    files: Seq<ParsedFileView>,
    has_build_script: bool,
    manifest: Option<DocumentView>,
    report: ReportView,
)
    requires
        is_report(name, version, files, has_build_script, manifest, report),
    ensures
        shows(report.signals, SignalKind::BuildScript) == has_build_script,
        shows(report.signals, SignalKind::ProcMacroCrate) == (manifest matches Some(document)
            && crate::manifest::declares_proc_macro(document)),
        shows(report.signals, SignalKind::NativeLinkage) == (manifest matches Some(document)
            && crate::manifest::linked_library(document) is Some),
{
    let of_files = signals_of_files(files);
    let of_script = build_script_signals(has_build_script);
    let of_manifest = signals_of_manifest(manifest);
    assert forall|kind: SignalKind| is_crate_kind(kind) implies #[trigger]
        shows(report.signals, kind) == (shows(of_script, kind) || shows(of_manifest, kind)) by {
        files_show_no_crate_kind(files, kind);
        shows_either(of_files, of_script, kind);
        shows_either(of_files + of_script, of_manifest, kind);
    }
    if has_build_script {
        assert(of_script[0].kind is BuildScript);
    }
    if let Some(document) = manifest {
        let declared = crate::manifest::declares_proc_macro(document);
        if declared {
            assert(of_manifest[0].kind is ProcMacroCrate);
        }
        if crate::manifest::linked_library(document) is Some {
            assert(of_manifest[if declared { 1int } else { 0int }].kind is NativeLinkage);
        }
    }
}

proof fn signals_of_nodes_stand_in(
    files: Seq<ParsedFileView>,
    k: int,
    nodes: Seq<NodeView>,
)
    requires
        0 <= k < files.len(),
        are_within(nodes, files[k].lines),
    ensures
        have_places(files, crate::classify::signals_of_nodes(files[k].path, nodes)),
    decreases nodes.len(),
{
    if nodes.len() > 0 {
        let rest = nodes.drop_last();
        let last = nodes.last();
        assert forall|i: int| 0 <= i < rest.len() implies 1 <= crate::syntax::line_of(
            #[trigger] rest[i],
        ) <= files[k].lines by {
            assert(rest[i] == nodes[i]);
        }
        signals_of_nodes_stand_in(files, k, rest);
        assert(1 <= crate::syntax::line_of(nodes[nodes.len() - 1]) <= files[k].lines);
        let of_last = crate::classify::signals_of_node(files[k].path, last);
        assert forall|i: int| 0 <= i < of_last.len() implies has_place(
            files,
            #[trigger] of_last[i],
        ) by {
            assert(of_last[i].file == files[k].path);
            assert(of_last[i].line == crate::syntax::line_of(last));
            assert(!is_crate_kind(of_last[i].kind));
        }
    }
}

proof fn signals_of_files_stand_in(files: Seq<ParsedFileView>, n: int)
    requires
        0 <= n <= files.len(),
        are_placed(files),
    ensures
        have_places(files, signals_of_files(files.take(n))),
    decreases n,
{
    if n > 0 {
        signals_of_files_stand_in(files, n - 1);
        assert(files.take(n).drop_last() =~= files.take(n - 1));
        assert(is_placed(files[n - 1]));
        if let Some(nodes) = files[n - 1].nodes {
            signals_of_nodes_stand_in(files, n - 1, nodes);
        }
    }
}

/// Every signal of a report has its place: line 0 marks exactly a build script, a
/// proc-macro crate and native linkage, and any other signal names a file that was
/// scanned and one of its lines.
pub proof fn signals_have_places(
    name: Seq<char>,
    version: Seq<char>,
    files: Seq<ParsedFileView>,
    has_build_script: bool,
    manifest: Option<DocumentView>,
    report: ReportView,
)
    requires
        is_report(name, version, files, has_build_script, manifest, report),
        are_placed(files),
    ensures
        have_places(files, report.signals),
        forall|i: int|
            0 <= i < report.signals.len() ==> ((#[trigger] report.signals[i]).line == 0
                <==> is_crate_kind(report.signals[i].kind)),
{
    signals_of_files_stand_in(files, files.len() as int);
    assert(files.take(files.len() as int) =~= files);
    assert forall|i: int| 0 <= i < report.signals.len() implies ((
    #[trigger] report.signals[i]).line == 0 <==> is_crate_kind(report.signals[i].kind)) by {
        assert(has_place(files, report.signals[i]));
    }
}

/// What was read from a directory is seen whole.
pub proof fn directories_are_seen_whole(dir: CrateDir, file: SourceFile, parsed: ParsedFile)
    ensures
        dir@.files.len() == dir.files@.len(),
        forall|i: int| 0 <= i < dir@.files.len() ==> #[trigger] dir@.files[i] == dir.files@[i]@,
        dir@.has_build_script == dir.has_build_script,
        match dir.manifest {
            Some(text) => dir@.manifest == Some(text@),
            None => dir@.manifest is None,
        },
        file@.components == texts(file.components@),
        file@.path == file.path@,
        file@.text == file.text@,
        parsed@.path == parsed.path@,
        parsed@.lines == parsed.lines,
        match parsed.nodes {
            Some(nodes) => parsed@.nodes == Some(node_views(nodes@)),
            None => parsed@.nodes is None,
        },
{
}

/// Each scanned file of a list is seen.
pub proof fn parsed_files_are_seen_whole(files: Seq<ParsedFile>)
    ensures
        parsed_views(files).len() == files.len(),
        forall|i: int| 0 <= i < files.len() ==> #[trigger] parsed_views(files)[i] == files[i]@,
{
}

/// A file is scanned exactly where its name is something and `.rs`, and neither it nor a
/// directory on the way to it is named `target` or `.git`.
pub proof fn rust_files_are_scanned(components: Seq<Seq<char>>, name: Seq<char>)
    ensures
        is_scanned(components) <==> {
            &&& components.len() > 0
            &&& exists|stem: Seq<char>|
                stem.len() > 0 && components.last() == #[trigger] (stem + ".rs"@)
            &&& !components.contains("target"@)
            &&& !components.contains(".git"@)
        },
        is_pruned(name) <==> name == "target"@ || name == ".git"@,
        is_rust_name(name) <==> exists|stem: Seq<char>|
            stem.len() > 0 && name == #[trigger] (stem + ".rs"@),
{
    assert forall|n: Seq<char>| #[trigger] is_rust_name(n) <==> exists|stem: Seq<char>|
        stem.len() > 0 && n == #[trigger] (stem + ".rs"@) by {
        reveal_strlit(".rs");
        if is_rust_name(n) {
            let stem = n.take(n.len() - 3);
            assert(n.subrange(n.len() - 3, n.len() as int) =~= ".rs"@);
            assert(n =~= stem + n.subrange(n.len() - 3, n.len() as int));
            if stem.len() == 0 {
                assert(n =~= ".rs"@);
            }
        }
        if exists|stem: Seq<char>| stem.len() > 0 && n == #[trigger] (stem + ".rs"@) {
            let stem = choose|stem: Seq<char>| stem.len() > 0 && n == #[trigger] (stem + ".rs"@);
            assert(n.subrange(n.len() - 3, n.len() as int) =~= ".rs"@);
        }
    }
    if is_scanned(components) {
        assert(is_rust_name(components.last()));
        if components.contains("target"@) {
            assert(is_pruned(components[components.index_of("target"@)]));
        }
        if components.contains(".git"@) {
            assert(is_pruned(components[components.index_of(".git"@)]));
        }
    } else if components.len() > 0 && is_rust_name(components.last()) {
        let i = choose|i: int| 0 <= i < components.len() && is_pruned(#[trigger] components[i]);
        assert(components.contains(components[i]));
    }
}

/// A file that is scanned is parsed from its own text and counted by its own lines; any
/// other gives nothing.
pub proof fn scanned_file_is_parsed(file: SourceFileView)
    ensures
        is_scanned(file.components) ==> parsed_files(seq![file]) == seq![
            ParsedFileView {
                path: file.path,
                lines: crate::text::line_count(file.text),
                nodes: crate::syntax::parsed_nodes(file.text),
            },
        ],
        !is_scanned(file.components) ==> parsed_files(seq![file]).len() == 0,
        parsed_files(Seq::empty()).len() == 0,
{
    assert(seq![file].drop_last() =~= Seq::empty());
    assert(seq![file].last() == file);
    assert(parsed_files(seq![file].drop_last()) =~= Seq::empty());
    if is_scanned(file.components) {
        assert(parsed_files(seq![file]) =~= seq![parsed_file(file)]);
    }
}

/// What files add to a report adds up: the lines, the number of files that parse, and the
/// signals of two lists of files put together are those of the first with those of the
/// second, the signals of the second behind those of the first.
pub proof fn files_add_up(a: Seq<ParsedFileView>, b: Seq<ParsedFileView>)
    ensures
        total_lines(a + b) == total_lines(a) + total_lines(b),
        parsed_count(a + b) == parsed_count(a) + parsed_count(b),
        signals_of_files(a + b) == signals_of_files(a) + signals_of_files(b),
    decreases b.len(),
{
    if b.len() == 0 {
        assert(a + b =~= a);
        assert(signals_of_files(a) =~= signals_of_files(a) + signals_of_files(b));
    } else {
        files_add_up(a, b.drop_last());
        assert((a + b).drop_last() =~= a + b.drop_last());
        assert(signals_of_files(a + b) =~= signals_of_files(a) + signals_of_files(b));
    }
}

/// One file adds its lines, and where it parses one file and the signals of its parts.
pub proof fn file_adds_its_own(file: ParsedFileView)
    ensures
        total_lines(seq![file]) == file.lines,
        match file.nodes {
            Some(nodes) => parsed_count(seq![file]) == 1 && signals_of_files(seq![file])
                == crate::classify::signals_of_nodes(file.path, nodes),
            None => parsed_count(seq![file]) == 0 && signals_of_files(seq![file]).len() == 0,
        },
        total_lines(Seq::empty()) == 0,
        parsed_count(Seq::empty()) == 0,
        signals_of_files(Seq::empty()).len() == 0,
{
    assert(seq![file].drop_last() =~= Seq::empty());
    assert(seq![file].last() == file);
    assert(total_lines(seq![file].drop_last()) == 0);
    assert(parsed_count(seq![file].drop_last()) == 0);
    assert(signals_of_files(seq![file].drop_last()) =~= Seq::empty());
    assert(signals_of_files(seq![file]) =~= signals_of_file(file));
}

/// A report holds the name and the version it is for, the counts of its files, their
/// signals with those of the build script and the manifest behind them, and each
/// dependency that the manifest declares, once and in order.
pub proof fn report_holds_what_was_parsed(
    name: Seq<char>,
    version: Seq<char>,
    files: Seq<ParsedFileView>,
    has_build_script: bool,
    manifest: Option<DocumentView>,
    report: ReportView,
    dependency: Seq<char>,
)
    requires
        is_report(name, version, files, has_build_script, manifest, report),
    ensures
        report.name == name,
        report.version == version,
        report.files_scanned == parsed_count(files),
        report.lines_scanned == total_lines(files),
        ({
            let script = if has_build_script {
                seq![
                    SignalView {
                        kind: SignalKind::BuildScript,
                        file: "build.rs"@,
                        line: 0,
                        detail: "build script present"@,
                    },
                ]
            } else {
                Seq::empty()
            };
            match manifest {
                Some(document) => report.signals == signals_of_files(files) + script
                    + crate::manifest::manifest_signals(document),
                None => report.signals == signals_of_files(files) + script,
            }
        }),
        match manifest {
            Some(document) => report.dependencies.contains(dependency)
                == crate::manifest::declared_dependencies(document).contains(dependency),
            None => report.dependencies.len() == 0,
        },
        forall|i: int, j: int|
            0 <= i < j < report.dependencies.len() ==> crate::text::text_le(
                #[trigger] report.dependencies[i],
                #[trigger] report.dependencies[j],
            ) && report.dependencies[i] != report.dependencies[j],
{
    if manifest is None {
        assert(report.signals =~= signals_of_files(files) + build_script_signals(has_build_script));
        if report.dependencies.len() > 0 {
            assert(report.dependencies.contains(report.dependencies[0]));
        }
    }
}

/// The signals of files are those of their parts, and no others.
proof fn signals_come_from_files(files: Seq<ParsedFileView>, s: SignalView)
    ensures
        signals_of_files(files).contains(s) <==> exists|k: int|
            0 <= k < files.len() && (#[trigger] files[k]).nodes is Some
                && crate::classify::signals_of_nodes(files[k].path, files[k].nodes->0).contains(s),
    decreases files.len(),
{
    if files.len() > 0 {
        let rest = files.drop_last();
        let earlier = signals_of_files(rest);
        let own = signals_of_file(files.last());
        let all = signals_of_files(files);
        signals_come_from_files(rest, s);
        if all.contains(s) {
            let k = all.index_of(s);
            if k < earlier.len() {
                assert(earlier[k] == s);
                let i = choose|i: int|
                    0 <= i < rest.len() && (#[trigger] rest[i]).nodes is Some
                        && crate::classify::signals_of_nodes(rest[i].path, rest[i].nodes->0).contains(s);
                assert(files[i] == rest[i]);
            } else {
                assert(own[k - earlier.len()] == s);
                assert(files[files.len() - 1] == files.last());
            }
        }
        if exists|k: int|
            0 <= k < files.len() && (#[trigger] files[k]).nodes is Some
                && crate::classify::signals_of_nodes(files[k].path, files[k].nodes->0).contains(s) {
            let i = choose|k: int|
                0 <= k < files.len() && (#[trigger] files[k]).nodes is Some
                    && crate::classify::signals_of_nodes(files[k].path, files[k].nodes->0).contains(s);
            if i < rest.len() {
                assert(rest[i] == files[i]);
                let k = earlier.index_of(s);
                assert(all[k] == s);
            } else {
                let k = own.index_of(s);
                assert(all[earlier.len() + k] == s);
            }
        }
    }
}

/// No part of any file is passed over: each signal that a part of a file that parses gives
/// is among the signals of the report.
pub proof fn every_part_is_reported(
    name: Seq<char>,
    version: Seq<char>,
    files: Seq<ParsedFileView>,
    has_build_script: bool,
    manifest: Option<DocumentView>,
    report: ReportView,
    k: int,
    i: int,
    s: SignalView,
)
    requires
        is_report(name, version, files, has_build_script, manifest, report),
        0 <= k < files.len(),
        files[k].nodes is Some,
        0 <= i < files[k].nodes->0.len(),
        crate::classify::signals_of_node(files[k].path, files[k].nodes->0[i]).contains(s),
    ensures
        report.signals.contains(s),
{
    let nodes = files[k].nodes->0;
    crate::classify::signals_come_from_parts(files[k].path, nodes, s);
    assert(crate::classify::signals_of_node(files[k].path, nodes[i]).contains(s));
    signals_come_from_files(files, s);
    assert(crate::classify::signals_of_nodes(files[k].path, files[k].nodes->0).contains(s));
    let at = signals_of_files(files).index_of(s);
    assert(report.signals[at] == s);
}

/// Nothing is made up: each signal of a report that is not of the crate as a whole is one
/// that a part of a file gives.
pub proof fn every_signal_has_a_part(
    name: Seq<char>,
    version: Seq<char>,
    files: Seq<ParsedFileView>,
    has_build_script: bool,
    manifest: Option<DocumentView>,
    report: ReportView,
    s: SignalView,
)
    requires
        is_report(name, version, files, has_build_script, manifest, report),
        report.signals.contains(s),
        !(s.kind is BuildScript || s.kind is ProcMacroCrate || s.kind is NativeLinkage),
    ensures
        exists|k: int, i: int|
            0 <= k < files.len() && files[k].nodes is Some && 0 <= i < files[k].nodes->0.len()
                && #[trigger] crate::classify::signals_of_node(
                files[k].path,
                files[k].nodes->0[i],
            ).contains(s),
{
    let of_files = signals_of_files(files);
    let script = build_script_signals(has_build_script);
    let at = report.signals.index_of(s);
    if at < of_files.len() {
        assert(of_files[at] == s);
        signals_come_from_files(files, s);
        let k = choose|k: int|
            0 <= k < files.len() && (#[trigger] files[k]).nodes is Some
                && crate::classify::signals_of_nodes(files[k].path, files[k].nodes->0).contains(s);
        let nodes = files[k].nodes->0;
        crate::classify::signals_come_from_parts(files[k].path, nodes, s);
        let i = choose|i: int|
            0 <= i < nodes.len() && crate::classify::signals_of_node(
                files[k].path,
                #[trigger] nodes[i],
            ).contains(s);
        assert(crate::classify::signals_of_node(files[k].path, files[k].nodes->0[i]).contains(s));
    } else if at < of_files.len() + script.len() {
        assert(script[at - of_files.len()] == s);
    } else {
        assert(signals_of_manifest(manifest)[at - of_files.len() - script.len()] == s);
    }
}

/// A manifest that is missing or no TOML document says nothing, and any other what it says.
pub proof fn manifest_is_parsed_from_its_text(text: Seq<char>)
    ensures
        parsed_manifest(Some(text)) == crate::document::parsed_document(text),
        parsed_manifest(None) is None,
{
}

/// What can be scanned depends on the size of what is scanned only, which adds up over
/// the files: a character counts one, and so does a file.
pub proof fn sizes_add_up(a: Seq<SourceFileView>, b: Seq<SourceFileView>, file: SourceFileView)
    ensures
        fits(a) <==> scanned_size(a) <= 0x3fff_ffff,
        scanned_size(a + b) == scanned_size(a) + scanned_size(b),
        scanned_size(seq![file]) == if is_scanned(file.components) {
            file.text.len() + 1
        } else {
            0
        },
        scanned_size(Seq::empty()) == 0,
    decreases b.len(),
{
    if b.len() == 0 {
        assert(a + b =~= a);
    } else {
        sizes_add_up(a, b.drop_last(), file);
        assert((a + b).drop_last() =~= a + b.drop_last());
    }
    assert(seq![file].drop_last() =~= Seq::empty());
    assert(scanned_size(seq![file].drop_last()) == 0);
    assert(seq![file].last() == file);
}

/// A signal that has its place has line 0 where it is of the crate as a whole, and names
/// a line of a file that was scanned otherwise.
pub proof fn places_are_lines_of_files(
    files: Seq<ParsedFileView>,
    signals: Seq<SignalView>,
    i: int,
)
    requires
        have_places(files, signals),
        0 <= i < signals.len(),
    ensures
        signals[i].kind is BuildScript || signals[i].kind is ProcMacroCrate
            || signals[i].kind is NativeLinkage ==> signals[i].line == 0,
        !(signals[i].kind is BuildScript || signals[i].kind is ProcMacroCrate
            || signals[i].kind is NativeLinkage) ==> exists|k: int|
            0 <= k < files.len() && (#[trigger] files[k]).path == signals[i].file && 1
                <= signals[i].line <= files[k].lines,
{
    assert(has_place(files, signals[i]));
}

} // verus!
