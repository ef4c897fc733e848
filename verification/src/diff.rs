//! What a crate gains and loses from one version to another.
use crate::names::{difference, is_difference};
use crate::report::{write_signals, CrateReport, ReportView};
use crate::severity::Severity;
use crate::signal::{has_key, keys, signal_views, Signal, SignalKind, SignalView};
use crate::sort::{stable_sort, Order};
use crate::text::{copy_texts, is_text_le, join, texts, to_decimal};
use vstd::prelude::*;

verus! {

/// What changed from an old version of a crate to a new one.
#[derive(Debug)]
pub struct Diff {
    /// The name and the version that are compared with.
    pub old: (String, String),
    /// The name and the version that are compared.
    pub new: (String, String),
    pub added: Vec<Signal>,
    pub removed: Vec<Signal>,
    pub added_dependencies: Vec<String>,
    pub removed_dependencies: Vec<String>,
}

/// What a [`Diff`] holds.
#[verifier::ext_equal]
pub struct DiffView {
    pub old: (Seq<char>, Seq<char>),
    pub new: (Seq<char>, Seq<char>),
    pub added: Seq<SignalView>,
    pub removed: Seq<SignalView>,
    pub added_dependencies: Seq<Seq<char>>,
    pub removed_dependencies: Seq<Seq<char>>,
}

impl View for Diff {
    type V = DiffView;

    open spec fn view(&self) -> DiffView {
        DiffView {
            old: (self.old.0@, self.old.1@),
            new: (self.new.0@, self.new.1@),
            added: signal_views(self.added@),
            removed: signal_views(self.removed@),
            added_dependencies: texts(self.added_dependencies@),
            removed_dependencies: texts(self.removed_dependencies@),
        }
    }
}

impl Clone for Diff {
    fn clone(&self) -> (r: Diff)
        ensures
            r@ == self@,
    {
        Diff {
            old: (self.old.0.clone(), self.old.1.clone()),
            new: (self.new.0.clone(), self.new.1.clone()),
            added: crate::report::copy_signals(&self.added),
            removed: crate::report::copy_signals(&self.removed),
            added_dependencies: copy_texts(&self.added_dependencies),
            removed_dependencies: copy_texts(&self.removed_dependencies),
        }
    }
}

/// The signals of `list` whose identity does not occur in `base`, the first of each
/// identity, in the order of `list`.
pub open spec fn fresh(list: Seq<SignalView>, base: Seq<SignalView>) -> Seq<SignalView>
    decreases list.len(),
{
    if list.len() == 0 {
        Seq::empty()
    } else {
        let earlier = fresh(list.drop_last(), base);
        let key = list.last().key();
        if keys(base).contains(key) || keys(earlier).contains(key) {
            earlier
        } else {
            earlier.push(list.last())
        }
    }
}

/// Lists the signals of `list` whose identity does not occur in `base`, the first of
/// each identity.
fn find_fresh(list: &Vec<Signal>, base: &Vec<Signal>) -> (r: Vec<Signal>)
    ensures
        signal_views(r@) == fresh(signal_views(list@), signal_views(base@)),
{
    let ghost all = signal_views(list@);
    let mut r: Vec<Signal> = Vec::new();
    assert(signal_views(r@) =~= Seq::empty());
    for i in 0..list.len()
        invariant
            all == signal_views(list@),
            signal_views(r@) == fresh(all.take(i as int), signal_views(base@)),
    {
        assert(all.take(i + 1).drop_last() =~= all.take(i as int));
        let ghost before = signal_views(r@);
        if !has_key(base, &list[i]) && !has_key(&r, &list[i]) {
            r.push(list[i].clone());
            assert(signal_views(r@) =~= before.push(list@[i as int]@));
        }
    }
    assert(all.take(all.len() as int) =~= all);
    r
}

/// The grave first, then by file.
pub struct ByRisk;

impl Order<Signal> for ByRisk {
    open spec fn le(a: SignalView, b: SignalView) -> bool {
        let x = a.kind.severity_of().rank();
        let y = b.kind.severity_of().rank();
        x > y || x == y && crate::text::text_le(a.file, b.file)
    }

    proof fn total(a: SignalView, b: SignalView) {
        crate::text::text_le_total(a.file, b.file);
    }

    proof fn transitive(a: SignalView, b: SignalView, c: SignalView) {
        if a.kind.severity_of().rank() == c.kind.severity_of().rank() {
            crate::text::text_le_transitive(a.file, b.file, c.file);
        }
    }

    fn is_le(a: &Signal, b: &Signal) -> (r: bool) {
        let x = a.kind.severity();
        let y = b.kind.severity();
        !y.at_least(&x) || x == y && is_text_le(a.file.as_str(), b.file.as_str())
    }
}

/// By file.
pub struct ByFile;

impl Order<Signal> for ByFile {
    open spec fn le(a: SignalView, b: SignalView) -> bool {
        crate::text::text_le(a.file, b.file)
    }

    proof fn total(a: SignalView, b: SignalView) {
        crate::text::text_le_total(a.file, b.file);
    }

    proof fn transitive(a: SignalView, b: SignalView, c: SignalView) {
        crate::text::text_le_transitive(a.file, b.file, c.file);
    }

    fn is_le(a: &Signal, b: &Signal) -> (r: bool) {
        is_text_le(a.file.as_str(), b.file.as_str())
    }
}

/// `diff` is what changed from `old` to `new`.
pub open spec fn is_diff(old: ReportView, new: ReportView, diff: DiffView) -> bool {
    &&& diff.old == (old.name, old.version)
    &&& diff.new == (new.name, new.version)
    &&& crate::sort::is_stable_sort(
        crate::sort::order::<Signal, ByRisk>(),
        fresh(new.signals, old.signals),
        diff.added,
    )
    &&& crate::sort::is_stable_sort(
        crate::sort::order::<Signal, ByFile>(),
        fresh(old.signals, new.signals),
        diff.removed,
    )
    &&& is_difference(new.dependencies, old.dependencies, diff.added_dependencies)
    &&& is_difference(old.dependencies, new.dependencies, diff.removed_dependencies)
}

/// Compares two reports on a crate.
pub fn diff_reports(old: &CrateReport, new: &CrateReport) -> (r: Diff)
    ensures
        is_diff(old@, new@, r@),
{
    let gained = find_fresh(&new.signals, &old.signals);
    let lost = find_fresh(&old.signals, &new.signals);
    assert(crate::sort::views(gained@) =~= signal_views(gained@));
    assert(crate::sort::views(lost@) =~= signal_views(lost@));
    let added = stable_sort::<Signal, ByRisk>(gained);
    let removed = stable_sort::<Signal, ByFile>(lost);
    assert(crate::sort::views(added@) =~= signal_views(added@));
    assert(crate::sort::views(removed@) =~= signal_views(removed@));
    Diff {
        old: (old.name.clone(), old.version.clone()),
        new: (new.name.clone(), new.version.clone()),
        added,
        removed,
        added_dependencies: difference(&new.dependencies, &old.dependencies),
        removed_dependencies: difference(&old.dependencies, &new.dependencies),
    }
}

/// Something of this severity was gained: a signal of it, or a dependency, which counts
/// as medium.
pub open spec fn gains(diff: DiffView, severity: Severity) -> bool {
    ||| exists|i: int|
        0 <= i < diff.added.len() && (#[trigger] diff.added[i]).kind.severity_of() == severity
    ||| severity == Severity::Medium && diff.added_dependencies.len() > 0
}

/// The gravest severity of what was gained.
pub open spec fn worst(diff: DiffView) -> Option<Severity> {
    if gains(diff, Severity::High) {
        Some(Severity::High)
    } else if gains(diff, Severity::Medium) {
        Some(Severity::Medium)
    } else if gains(diff, Severity::Low) {
        Some(Severity::Low)
    } else {
        None
    }
}

impl Diff {
    /// The worst severity among everything newly gained: what a CI gate should key off.
    /// `None` means that the update looks safe by these heuristics.
    pub fn worst_severity(&self) -> (r: Option<Severity>)
        ensures
            r == worst(self@),
    {
        let mut r: Option<Severity> = if self.added_dependencies.len() > 0 {
            Some(Severity::Medium)
        } else {
            None
        };
        let ghost base = r;
        for i in 0..self.added.len()
            invariant
                base == (if self@.added_dependencies.len() > 0 {
                    Some(Severity::Medium)
                } else {
                    None
                }),
                r is Some ==> r == base || exists|k: int|
                    0 <= k < i && (#[trigger] self@.added[k]).kind.severity_of() == r->0,
                base is Some ==> r is Some && r->0.rank() >= base->0.rank(),
                forall|k: int|
                    0 <= k < i ==> r is Some && r->0.rank() >= (
                    #[trigger] self@.added[k]).kind.severity_of().rank(),
        {
            let severity = self.added[i].kind.severity();
            assert(self@.added[i as int].kind.severity_of() == severity);
            match r {
                Some(s) if s.at_least(&severity) => {},
                _ => {
                    r = Some(severity);
                },
            }
        }
        r
    }
}

/// The exit code for a severity.
pub open spec fn code(worst: Option<Severity>) -> i32 {
    match worst {
        Some(Severity::High) => 2,
        Some(Severity::Medium) => 1,
        Some(Severity::Low) => 0,
        None => 0,
    }
}

/// Gives the exit code for a severity: a CI gate fails on what is not zero.
pub fn exit_code(worst: Option<Severity>) -> (r: i32)
    ensures
        r == code(worst),
{
    match worst {
        Some(Severity::High) => 2,
        Some(Severity::Medium) => 1,
        Some(Severity::Low) | None => 0,
    }
}

/// What is shown of the gains.
pub open spec fn gains_text(diff: DiffView) -> Seq<char> {
    if diff.added.len() == 0 && diff.added_dependencies.len() == 0 {
        "no new capability signals.\n"@
    } else {
        (if diff.added.len() > 0 {
            "+ "@ + crate::text::decimal(diff.added.len()) + " new signal(s):\n"@
                + crate::report::signal_lines("    "@, diff.added)
        } else {
            Seq::empty()
        }) + (if diff.added_dependencies.len() > 0 {
            "+ new dependencies: "@ + crate::text::joined(diff.added_dependencies, ", "@) + "\n"@
        } else {
            Seq::empty()
        })
    }
}

/// What is shown of the losses.
pub open spec fn losses_text(diff: DiffView) -> Seq<char> {
    (if diff.removed.len() > 0 {
        "- "@ + crate::text::decimal(diff.removed.len()) + " signal(s) no longer present:\n"@
            + crate::report::signal_lines("    "@, diff.removed)
    } else {
        Seq::empty()
    }) + (if diff.removed_dependencies.len() > 0 {
        "- removed dependencies: "@ + crate::text::joined(diff.removed_dependencies, ", "@)
            + "\n"@
    } else {
        Seq::empty()
    })
}

/// A diff as it is shown.
pub open spec fn diff_text(diff: DiffView) -> Seq<char> {
    diff.old.0 + " "@ + diff.old.1 + "  ->  "@ + diff.new.0 + " "@ + diff.new.1 + "\n"@
        + gains_text(diff) + losses_text(diff) + (match worst(diff) {
        Some(severity) => "\nworst new severity: "@ + severity.word() + "\n"@,
        None => "\nno new risk detected\n"@,
    })
}

/// Puts what is shown of the gains at the end of `out`.
fn write_gains(out: &mut String, d: &Diff)
    ensures
        final(out)@ == old(out)@ + gains_text(d@),
{
    let ghost before = out@;
    if d.added.len() == 0 && d.added_dependencies.len() == 0 {
        out.append("no new capability signals.\n");
    } else {
        if d.added.len() > 0 {
            out.append("+ ");
            out.append(to_decimal(d.added.len()).as_str());
            out.append(" new signal(s):\n");
            write_signals(out, "    ", &d.added);
        }
        if d.added_dependencies.len() > 0 {
            out.append("+ new dependencies: ");
            out.append(join(&d.added_dependencies, ", ").as_str());
            out.append("\n");
        }
    }
    assert(out@ =~= before + gains_text(d@));
}

/// Puts what is shown of the losses at the end of `out`.
fn write_losses(out: &mut String, d: &Diff)
    ensures
        final(out)@ == old(out)@ + losses_text(d@),
{
    let ghost before = out@;
    if d.removed.len() > 0 {
        out.append("- ");
        out.append(to_decimal(d.removed.len()).as_str());
        out.append(" signal(s) no longer present:\n");
        write_signals(out, "    ", &d.removed);
    }
    if d.removed_dependencies.len() > 0 {
        out.append("- removed dependencies: ");
        out.append(join(&d.removed_dependencies, ", ").as_str());
        out.append("\n");
    }
    assert(out@ =~= before + losses_text(d@));
}

/// Writes a diff as it is shown.
pub fn render_diff(d: &Diff) -> (out: String)
    ensures
        out@ == diff_text(d@),
{
    let mut out = String::new();
    out.append(d.old.0.as_str());
    out.append(" ");
    out.append(d.old.1.as_str());
    out.append("  ->  ");
    out.append(d.new.0.as_str());
    out.append(" ");
    out.append(d.new.1.as_str());
    out.append("\n");
    write_gains(&mut out, d);
    write_losses(&mut out, d);
    match d.worst_severity() {
        Some(severity) => {
            out.append("\nworst new severity: ");
            out.append(severity.label());
            out.append("\n");
        },
        None => {
            out.append("\nno new risk detected\n");
        },
    }
    assert(out@ =~= diff_text(d@));
    out
}

proof fn keys_of_push(list: Seq<SignalView>, s: SignalView, key: (SignalKind, Seq<char>))
    ensures
        keys(list.push(s)).contains(key) == (keys(list).contains(key) || s.key() == key),
{
    assert(keys(list.push(s)) =~= keys(list).push(s.key()));
    crate::names::pushed_contains(keys(list), s.key(), key);
}

/// The identities of fresh signals: those of the list that the base lacks, each once.
proof fn keys_of_fresh(
    list: Seq<SignalView>,
    base: Seq<SignalView>,
    key: (SignalKind, Seq<char>),
)
    ensures
        keys(fresh(list, base)).contains(key) == (keys(list).contains(key) && !keys(base).contains(
            key,
        )),
        keys(fresh(list, base)).no_duplicates(),
    decreases list.len(),
{
    if list.len() > 0 {
        let rest = list.drop_last();
        let last = list.last();
        let earlier = fresh(rest, base);
        keys_of_fresh(rest, base, key);
        keys_of_fresh(rest, base, last.key());
        assert(list =~= rest.push(last));
        keys_of_push(rest, last, key);
        keys_of_push(earlier, last, key);
        assert(keys(earlier.push(last)) =~= keys(earlier).push(last.key()));
    } else {
        assert(keys(list) =~= Seq::empty());
        assert(keys(fresh(list, base)) =~= Seq::empty());
    }
}

proof fn fresh_is_listed(list: Seq<SignalView>, base: Seq<SignalView>, s: SignalView)
    requires
        fresh(list, base).contains(s),
    ensures
        list.contains(s),
    decreases list.len(),
{
    if list.len() > 0 {
        let rest = list.drop_last();
        assert(list =~= rest.push(list.last()));
        crate::names::pushed_contains(rest, list.last(), s);
        crate::names::pushed_contains(fresh(rest, base), list.last(), s);
        if fresh(rest, base).contains(s) {
            fresh_is_listed(rest, base, s);
        }
    }
}

/// A list of signals holds an identity where it holds a signal of it.
proof fn keys_by_signal(list: Seq<SignalView>, key: (SignalKind, Seq<char>)) -> (s: SignalView)
    requires
        keys(list).contains(key),
    ensures
        list.contains(s),
        s.key() == key,
{
    let i = keys(list).index_of(key);
    assert(list[i].key() == key);
    list[i]
}

proof fn keys_of_sorted<O: Order<Signal>>(
    input: Seq<SignalView>,
    output: Seq<SignalView>,
    key: (SignalKind, Seq<char>),
)
    requires
        crate::sort::is_stable_sort(crate::sort::order::<Signal, O>(), input, output),
    ensures
        keys(output).contains(key) == keys(input).contains(key),
{
    if keys(output).contains(key) {
        let s = keys_by_signal(output, key);
        crate::sort::stable_sort_keeps_values::<Signal, O>(input, output, s);
        let i = input.index_of(s);
        assert(keys(input)[i] == key);
    }
    if keys(input).contains(key) {
        let s = keys_by_signal(input, key);
        crate::sort::stable_sort_keeps_values::<Signal, O>(input, output, s);
        let i = output.index_of(s);
        assert(keys(output)[i] == key);
    }
}

proof fn sorted_keys_are_distinct<O: Order<Signal>>(
    input: Seq<SignalView>,
    output: Seq<SignalView>,
)
    requires
        crate::sort::is_stable_sort(crate::sort::order::<Signal, O>(), input, output),
        keys(input).no_duplicates(),
    ensures
        keys(output).no_duplicates(),
{
    assert(input.no_duplicates()) by {
        assert forall|i: int, j: int| 0 <= i < input.len() && 0 <= j < input.len() && i
            != j implies input[i] != input[j] by {
            assert(keys(input)[i] != keys(input)[j]);
        }
    }
    crate::sort::stable_sort_keeps_distinct::<Signal, O>(input, output);
    assert forall|i: int, j: int| 0 <= i < output.len() && 0 <= j < output.len() && i
        != j implies keys(output)[i] != keys(output)[j] by {
        crate::sort::stable_sort_keeps_values::<Signal, O>(input, output, output[i]);
        crate::sort::stable_sort_keeps_values::<Signal, O>(input, output, output[j]);
        assert(output.contains(output[i]) && output.contains(output[j]));
        let k = input.index_of(output[i]);
        let l = input.index_of(output[j]);
        assert(output[i] != output[j]);
        assert(keys(input)[k] != keys(input)[l]);
    }
}

/// The identities that a diff adds are those that the new version has and the old one
/// lacks, and those that it removes are those that the old version has and the new one
/// lacks: files and lines have no part in it.
pub proof fn diff_goes_by_identity(
    old: ReportView,
    new: ReportView,
    diff: DiffView,
    key: (SignalKind, Seq<char>),
)
    requires
        is_diff(old, new, diff),
    ensures
        keys(diff.added).contains(key) == (keys(new.signals).contains(key) && !keys(
            old.signals,
        ).contains(key)),
        keys(diff.removed).contains(key) == (keys(old.signals).contains(key) && !keys(
            new.signals,
        ).contains(key)),
{
    keys_of_fresh(new.signals, old.signals, key);
    keys_of_fresh(old.signals, new.signals, key);
    keys_of_sorted::<ByRisk>(fresh(new.signals, old.signals), diff.added, key);
    keys_of_sorted::<ByFile>(fresh(old.signals, new.signals), diff.removed, key);
}

/// A diff lists no identity twice.
pub proof fn diff_lists_each_identity_once(old: ReportView, new: ReportView, diff: DiffView)
    requires
        is_diff(old, new, diff),
    ensures
        keys(diff.added).no_duplicates(),
        keys(diff.removed).no_duplicates(),
{
    let key = (SignalKind::Ffi, Seq::empty());
    keys_of_fresh(new.signals, old.signals, key);
    keys_of_fresh(old.signals, new.signals, key);
    sorted_keys_are_distinct::<ByRisk>(fresh(new.signals, old.signals), diff.added);
    sorted_keys_are_distinct::<ByFile>(fresh(old.signals, new.signals), diff.removed);
}

/// What a diff adds was seen in the new version, where it says; what it removes was seen
/// in the old one.
pub proof fn diff_lists_what_was_seen(
    old: ReportView,
    new: ReportView,
    diff: DiffView,
    s: SignalView,
)
    requires
        is_diff(old, new, diff),
    ensures
        diff.added.contains(s) ==> new.signals.contains(s),
        diff.removed.contains(s) ==> old.signals.contains(s),
{
    crate::sort::stable_sort_keeps_values::<Signal, ByRisk>(
        fresh(new.signals, old.signals),
        diff.added,
        s,
    );
    crate::sort::stable_sort_keeps_values::<Signal, ByFile>(
        fresh(old.signals, new.signals),
        diff.removed,
        s,
    );
    if diff.added.contains(s) {
        fresh_is_listed(new.signals, old.signals, s);
    }
    if diff.removed.contains(s) {
        fresh_is_listed(old.signals, new.signals, s);
    }
}

/// Code that only moves is no change: where two versions show the same identities,
/// wherever they stand, no signal is added and none is removed.
pub proof fn moved_code_is_no_change(old: ReportView, new: ReportView, diff: DiffView)
    requires
        is_diff(old, new, diff),
        forall|key: (SignalKind, Seq<char>)| #[trigger]
            keys(old.signals).contains(key) == keys(new.signals).contains(key),
    ensures
        diff.added.len() == 0,
        diff.removed.len() == 0,
{
    if diff.added.len() > 0 {
        let key = diff.added[0].key();
        diff_goes_by_identity(old, new, diff, key);
        assert(keys(diff.added)[0] == key);
        assert(keys(old.signals).contains(key) == keys(new.signals).contains(key));
    }
    if diff.removed.len() > 0 {
        let key = diff.removed[0].key();
        diff_goes_by_identity(old, new, diff, key);
        assert(keys(diff.removed)[0] == key);
        assert(keys(old.signals).contains(key) == keys(new.signals).contains(key));
    }
}

/// A version gains and loses nothing against one that shows the same signals and has the
/// same dependencies, and its worst new severity is none.
pub proof fn same_surface_has_empty_diff(old: ReportView, new: ReportView, diff: DiffView)
    requires
        is_diff(old, new, diff),
        old.signals == new.signals,
        old.dependencies == new.dependencies,
    ensures
        diff.added.len() == 0,
        diff.removed.len() == 0,
        diff.added_dependencies.len() == 0,
        diff.removed_dependencies.len() == 0,
        worst(diff) is None,
{
    moved_code_is_no_change(old, new, diff);
    if diff.added_dependencies.len() > 0 {
        assert(diff.added_dependencies.contains(diff.added_dependencies[0]));
    }
    if diff.removed_dependencies.len() > 0 {
        assert(diff.removed_dependencies.contains(diff.removed_dependencies[0]));
    }
}

/// Against a version with no signals and no dependencies nothing is lost, and the whole
/// surface is gained.
pub proof fn diff_from_nothing_gains_all(
    old: ReportView,
    new: ReportView,
    diff: DiffView,
    key: (SignalKind, Seq<char>),
    name: Seq<char>,
)
    requires
        is_diff(old, new, diff),
        old.signals.len() == 0,
        old.dependencies.len() == 0,
    ensures
        diff.removed.len() == 0,
        diff.removed_dependencies.len() == 0,
        keys(diff.added).contains(key) == keys(new.signals).contains(key),
        diff.added_dependencies.contains(name) == new.dependencies.contains(name),
{
    diff_goes_by_identity(old, new, diff, key);
    if diff.removed_dependencies.len() > 0 {
        assert(diff.removed_dependencies.contains(diff.removed_dependencies[0]));
    }
}

/// Going back undoes an update: what one direction adds the other removes, the same
/// signals in the same places.
pub proof fn reversed_diff_swaps_sides(
    old: ReportView,
    new: ReportView,
    there: DiffView,
    back: DiffView,
    key: (SignalKind, Seq<char>),
)
    requires
        is_diff(old, new, there),
        is_diff(new, old, back),
    ensures
        keys(there.added).contains(key) == keys(back.removed).contains(key),
        keys(there.removed).contains(key) == keys(back.added).contains(key),
        there.added.to_multiset() == back.removed.to_multiset(),
        there.removed.to_multiset() == back.added.to_multiset(),
        there.added_dependencies == back.removed_dependencies,
        there.removed_dependencies == back.added_dependencies,
{
    diff_goes_by_identity(old, new, there, key);
    diff_goes_by_identity(new, old, back, key);
    let gained = fresh(new.signals, old.signals);
    let lost = fresh(old.signals, new.signals);
    crate::sort::stable_sort_keeps_counts::<Signal, ByRisk>(gained, there.added);
    crate::sort::stable_sort_keeps_counts::<Signal, ByFile>(gained, back.removed);
    crate::sort::stable_sort_keeps_counts::<Signal, ByFile>(lost, there.removed);
    crate::sort::stable_sort_keeps_counts::<Signal, ByRisk>(lost, back.added);
    crate::names::sorted_set_is_unique(there.added_dependencies, back.removed_dependencies);
    crate::names::sorted_set_is_unique(there.removed_dependencies, back.added_dependencies);
}

/// Two reports determine what changed from one to the other.
pub proof fn diff_is_determined(old: ReportView, new: ReportView, a: DiffView, b: DiffView)
    requires
        is_diff(old, new, a),
        is_diff(old, new, b),
    ensures
        a == b,
{
    crate::sort::stable_sort_is_unique::<Signal, ByRisk>(
        fresh(new.signals, old.signals),
        a.added,
        b.added,
    );
    crate::sort::stable_sort_is_unique::<Signal, ByFile>(
        fresh(old.signals, new.signals),
        a.removed,
        b.removed,
    );
    crate::names::sorted_set_is_unique(a.added_dependencies, b.added_dependencies);
    crate::names::sorted_set_is_unique(a.removed_dependencies, b.removed_dependencies);
}

/// The gravest signals come first, so the first added signal is as grave as any.
pub proof fn gravest_signal_comes_first(old: ReportView, new: ReportView, diff: DiffView, i: int)
    requires
        is_diff(old, new, diff),
        0 <= i < diff.added.len(),
    ensures
        diff.added[0].kind.severity_of().rank() >= diff.added[i].kind.severity_of().rank(),
{
    if i > 0 {
        assert(crate::sort::order::<Signal, ByRisk>()(diff.added[0], diff.added[i]));
    }
}

/// The worst severity of a diff is one of what was gained and at least that of anything
/// gained.
pub proof fn worst_is_the_maximum(diff: DiffView, severity: Severity)
    ensures
        gains(diff, severity) ==> worst(diff) is Some && worst(diff)->0.rank() >= severity.rank(),
        worst(diff) == Some(severity) ==> gains(diff, severity),
{
}

/// There is a worst severity exactly where something was gained; what was lost has no
/// part in it.
pub proof fn only_gains_are_risk(diff: DiffView)
    ensures
        worst(diff) is None <==> diff.added.len() == 0 && diff.added_dependencies.len() == 0,
{
    if diff.added.len() > 0 {
        let severity = diff.added[0].kind.severity_of();
        assert(gains(diff, severity));
    }
}

/// A new dependency alone makes an update of medium severity at least.
pub proof fn new_dependency_is_medium(diff: DiffView)
    requires
        diff.added_dependencies.len() > 0,
    ensures
        worst(diff) is Some,
        worst(diff)->0.rank() >= Severity::Medium.rank(),
        diff.added.len() == 0 ==> worst(diff) == Some(Severity::Medium),
{
}

/// The exit code is 2 where a signal of high severity was gained, 1 where the worst that
/// was gained is medium, and 0 otherwise.
pub proof fn exit_code_tells_the_worst(diff: DiffView)
    ensures
        code(worst(diff)) == 2 <==> gains(diff, Severity::High),
        code(worst(diff)) == 1 <==> !gains(diff, Severity::High) && gains(diff, Severity::Medium),
        code(worst(diff)) == 0 <==> !gains(diff, Severity::High) && !gains(
            diff,
            Severity::Medium,
        ),
{
}

/// A diff is seen with all that it holds.
pub proof fn diffs_are_seen_whole(d: Diff)
    ensures
        d@.old == (d.old.0@, d.old.1@),
        d@.new == (d.new.0@, d.new.1@),
        d@.added == signal_views(d.added@),
        d@.removed == signal_views(d.removed@),
        d@.added_dependencies == texts(d.added_dependencies@),
        d@.removed_dependencies == texts(d.removed_dependencies@),
{
}

/// A fresh signal is the first of its identity in its list, and the base has none of it.
proof fn fresh_is_first(list: Seq<SignalView>, base: Seq<SignalView>, j: int) -> (p: int)
    requires
        0 <= j < fresh(list, base).len(),
    ensures
        0 <= p < list.len(),
        list[p] == fresh(list, base)[j],
        forall|q: int|
            0 <= q < p ==> (#[trigger] list[q]).kind != list[p].kind || list[q].detail
                != list[p].detail,
        forall|q: int|
            0 <= q < base.len() ==> (#[trigger] base[q]).kind != list[p].kind || base[q].detail
                != list[p].detail,
    decreases list.len(),
{
    let rest = list.drop_last();
    let last = list.last();
    let earlier = fresh(rest, base);
    if j < earlier.len() {
        let p = fresh_is_first(rest, base, j);
        assert forall|q: int| 0 <= q < p implies (#[trigger] list[q]).kind != list[p].kind
            || list[q].detail != list[p].detail by {
            assert(rest[q] == list[q]);
        }
        p
    } else {
        keys_of_fresh(rest, base, last.key());
        crate::signal::identities_are_those_of_signals(rest, last);
        crate::signal::identities_are_those_of_signals(base, last);
        assert forall|q: int| 0 <= q < list.len() - 1 implies (#[trigger] list[q]).kind != last.kind
            || list[q].detail != last.detail by {
            assert(rest[q] == list[q]);
        }
        list.len() - 1
    }
}

/// Fresh signals stand in the order of their list.
proof fn fresh_keeps_order(list: Seq<SignalView>, base: Seq<SignalView>, i: int, j: int) -> (r: (
    int,
    int,
))
    requires
        0 <= i < j < fresh(list, base).len(),
    ensures
        0 <= r.0 < r.1 < list.len(),
        list[r.0] == fresh(list, base)[i],
        list[r.1] == fresh(list, base)[j],
    decreases list.len(),
{
    let rest = list.drop_last();
    let earlier = fresh(rest, base);
    if j < earlier.len() {
        fresh_keeps_order(rest, base, i, j)
    } else {
        let p = fresh_is_first(rest, base, i);
        (p, list.len() - 1)
    }
}

/// What is added is new: the first signal of its kind and detail in the new version, of
/// which the old version has none. So is what is removed, the other way round.
pub proof fn each_change_is_the_first_of_its_identity(
    old: ReportView,
    new: ReportView,
    diff: DiffView,
    i: int,
)
    requires
        is_diff(old, new, diff),
    ensures
        0 <= i < diff.added.len() ==> {
            &&& exists|p: int|
                0 <= p < new.signals.len() && #[trigger] new.signals[p] == diff.added[i]
                    && forall|q: int|
                    0 <= q < p ==> (#[trigger] new.signals[q]).kind != diff.added[i].kind
                        || new.signals[q].detail != diff.added[i].detail
            &&& forall|q: int|
                0 <= q < old.signals.len() ==> (#[trigger] old.signals[q]).kind
                    != diff.added[i].kind || old.signals[q].detail != diff.added[i].detail
        },
        0 <= i < diff.removed.len() ==> {
            &&& exists|p: int|
                0 <= p < old.signals.len() && #[trigger] old.signals[p] == diff.removed[i]
                    && forall|q: int|
                    0 <= q < p ==> (#[trigger] old.signals[q]).kind != diff.removed[i].kind
                        || old.signals[q].detail != diff.removed[i].detail
            &&& forall|q: int|
                0 <= q < new.signals.len() ==> (#[trigger] new.signals[q]).kind
                    != diff.removed[i].kind || new.signals[q].detail != diff.removed[i].detail
        },
{
    let gained = fresh(new.signals, old.signals);
    let lost = fresh(old.signals, new.signals);
    if 0 <= i < diff.added.len() {
        let s = diff.added[i];
        assert(diff.added.contains(s));
        crate::sort::stable_sort_keeps_values::<Signal, ByRisk>(gained, diff.added, s);
        let p = fresh_is_first(new.signals, old.signals, gained.index_of(s));
        assert(new.signals[p] == s);
    }
    if 0 <= i < diff.removed.len() {
        let s = diff.removed[i];
        assert(diff.removed.contains(s));
        crate::sort::stable_sort_keeps_values::<Signal, ByFile>(lost, diff.removed, s);
        let p = fresh_is_first(old.signals, new.signals, lost.index_of(s));
        assert(old.signals[p] == s);
    }
}

/// No gain is missed: wherever no signal of the old version has both the kind and the
/// detail of a signal of the new one, a signal of that kind and detail is added. No loss
/// is missed either.
pub proof fn no_gain_is_missed(old: ReportView, new: ReportView, diff: DiffView, s: SignalView)
    requires
        is_diff(old, new, diff),
    ensures
        new.signals.contains(s) && (forall|q: int|
            0 <= q < old.signals.len() ==> (#[trigger] old.signals[q]).kind != s.kind
                || old.signals[q].detail != s.detail) ==> exists|i: int|
            0 <= i < diff.added.len() && (#[trigger] diff.added[i]).kind == s.kind
                && diff.added[i].detail == s.detail,
        old.signals.contains(s) && (forall|q: int|
            0 <= q < new.signals.len() ==> (#[trigger] new.signals[q]).kind != s.kind
                || new.signals[q].detail != s.detail) ==> exists|i: int|
            0 <= i < diff.removed.len() && (#[trigger] diff.removed[i]).kind == s.kind
                && diff.removed[i].detail == s.detail,
{
    diff_goes_by_identity(old, new, diff, s.key());
    crate::signal::identities_are_those_of_signals(old.signals, s);
    crate::signal::identities_are_those_of_signals(new.signals, s);
    crate::signal::identities_are_those_of_signals(diff.added, s);
    crate::signal::identities_are_those_of_signals(diff.removed, s);
    if new.signals.contains(s) {
        let i = new.signals.index_of(s);
        assert(new.signals[i].kind == s.kind);
    }
    if old.signals.contains(s) {
        let i = old.signals.index_of(s);
        assert(old.signals[i].kind == s.kind);
    }
}

/// No two signals that are added have the same kind and the same detail, and no two that
/// are removed.
pub proof fn changes_differ_in_kind_or_detail(
    old: ReportView,
    new: ReportView,
    diff: DiffView,
    i: int,
    j: int,
)
    requires
        is_diff(old, new, diff),
        i != j,
    ensures
        0 <= i < diff.added.len() && 0 <= j < diff.added.len() ==> diff.added[i].kind
            != diff.added[j].kind || diff.added[i].detail != diff.added[j].detail,
        0 <= i < diff.removed.len() && 0 <= j < diff.removed.len() ==> diff.removed[i].kind
            != diff.removed[j].kind || diff.removed[i].detail != diff.removed[j].detail,
{
    diff_lists_each_identity_once(old, new, diff);
    if 0 <= i < diff.added.len() && 0 <= j < diff.added.len() {
        assert(keys(diff.added)[i] != keys(diff.added)[j]);
    }
    if 0 <= i < diff.removed.len() && 0 <= j < diff.removed.len() {
        assert(keys(diff.removed)[i] != keys(diff.removed)[j]);
    }
}

/// What is added is listed from grave to harmless, and by file where it is as grave; what
/// is removed by file. Where that leaves two signals level, they stay as the version that
/// has them lists them.
pub proof fn changes_are_listed_in_order(
    old: ReportView,
    new: ReportView,
    diff: DiffView,
    i: int,
    j: int,
)
    requires
        is_diff(old, new, diff),
        0 <= i < j,
    ensures
        j < diff.added.len() ==> {
            let x = diff.added[i].kind.severity_of().rank();
            let y = diff.added[j].kind.severity_of().rank();
            &&& x > y || x == y && crate::text::text_le(diff.added[i].file, diff.added[j].file)
            &&& x == y && diff.added[i].file == diff.added[j].file ==> exists|p: int, q: int|
                0 <= p < q < new.signals.len() && #[trigger] new.signals[p] == diff.added[i]
                    && #[trigger] new.signals[q] == diff.added[j]
        },
        j < diff.removed.len() ==> {
            &&& crate::text::text_le(diff.removed[i].file, diff.removed[j].file)
            &&& diff.removed[i].file == diff.removed[j].file ==> exists|p: int, q: int|
                0 <= p < q < old.signals.len() && #[trigger] old.signals[p] == diff.removed[i]
                    && #[trigger] old.signals[q] == diff.removed[j]
        },
{
    let gained = fresh(new.signals, old.signals);
    let lost = fresh(old.signals, new.signals);
    if j < diff.added.len() {
        let a = diff.added[i];
        let b = diff.added[j];
        assert(crate::sort::order::<Signal, ByRisk>()(a, b));
        if a.kind.severity_of().rank() == b.kind.severity_of().rank() && a.file == b.file {
            crate::text::text_le_total(a.file, a.file);
            let (k, l) = crate::sort::stable_sort_keeps_order::<Signal, ByRisk>(
                gained,
                diff.added,
                i,
                j,
            );
            let (p, q) = fresh_keeps_order(new.signals, old.signals, k, l);
            assert(new.signals[p] == a && new.signals[q] == b);
        }
    }
    if j < diff.removed.len() {
        let a = diff.removed[i];
        let b = diff.removed[j];
        assert(crate::sort::order::<Signal, ByFile>()(a, b));
        if a.file == b.file {
            crate::text::text_le_total(a.file, a.file);
            let (k, l) = crate::sort::stable_sort_keeps_order::<Signal, ByFile>(
                lost,
                diff.removed,
                i,
                j,
            );
            let (p, q) = fresh_keeps_order(old.signals, new.signals, k, l);
            assert(old.signals[p] == a && old.signals[q] == b);
        }
    }
}

/// A diff names both versions, and lists the dependencies that the one has and the other
/// lacks, in order and none twice.
pub proof fn diff_names_versions_and_dependencies(
    old: ReportView,
    new: ReportView,
    diff: DiffView,
    name: Seq<char>,
    i: int,
    j: int,
)
    requires
        is_diff(old, new, diff),
    ensures
        diff.old.0 == old.name && diff.old.1 == old.version,
        diff.new.0 == new.name && diff.new.1 == new.version,
        diff.added_dependencies.contains(name) <==> new.dependencies.contains(name)
            && !old.dependencies.contains(name),
        diff.removed_dependencies.contains(name) <==> old.dependencies.contains(name)
            && !new.dependencies.contains(name),
        0 <= i < j < diff.added_dependencies.len() ==> crate::text::text_le(
            diff.added_dependencies[i],
            diff.added_dependencies[j],
        ) && diff.added_dependencies[i] != diff.added_dependencies[j],
        0 <= i < j < diff.removed_dependencies.len() ==> crate::text::text_le(
            diff.removed_dependencies[i],
            diff.removed_dependencies[j],
        ) && diff.removed_dependencies[i] != diff.removed_dependencies[j],
{
}

/// The worst severity is high exactly where a signal of high severity is added; otherwise
/// medium exactly where one of medium severity or a dependency is added; otherwise low
/// exactly where a signal is added; and there is none exactly where nothing is added.
pub proof fn worst_is_that_of_what_is_added(diff: DiffView)
    ensures
        worst(diff) == Some(Severity::High) <==> exists|i: int|
            0 <= i < diff.added.len() && (#[trigger] diff.added[i]).kind.severity_of()
                == Severity::High,
        worst(diff) == Some(Severity::Medium) <==> {
            &&& forall|i: int|
                0 <= i < diff.added.len() ==> (#[trigger] diff.added[i]).kind.severity_of()
                    != Severity::High
            &&& diff.added_dependencies.len() > 0 || exists|i: int|
                0 <= i < diff.added.len() && (#[trigger] diff.added[i]).kind.severity_of()
                    == Severity::Medium
        },
        worst(diff) is None <==> diff.added.len() == 0 && diff.added_dependencies.len() == 0,
        code(Some(Severity::High)) == 2,
        code(Some(Severity::Medium)) == 1,
        code(Some(Severity::Low)) == 0,
        code(None) == 0,
{
    if diff.added.len() > 0 {
        assert(gains(diff, diff.added[0].kind.severity_of()));
    }
}

/// What is lost has no part in the worst severity: two diffs that add the same signals and
/// as many dependencies have the same, whatever they remove and compare.
pub proof fn losses_do_not_count(a: DiffView, b: DiffView)
    requires
        a.added == b.added,
        a.added_dependencies.len() == b.added_dependencies.len(),
    ensures
        worst(a) == worst(b),
        code(worst(a)) == code(worst(b)),
{
    worst_is_that_of_what_is_added(a);
    worst_is_that_of_what_is_added(b);
}

/// A diff that adds more is no less grave.
pub proof fn more_gains_are_no_less_grave(a: DiffView, b: DiffView)
    requires
        forall|i: int|
            0 <= i < a.added.len() ==> b.added.contains(#[trigger] a.added[i]),
        a.added_dependencies.len() > 0 ==> b.added_dependencies.len() > 0,
    ensures
        worst(a) matches Some(x) ==> worst(b) is Some && worst(b)->0.rank() >= x.rank(),
        code(worst(a)) <= code(worst(b)),
{
    if let Some(x) = worst(a) {
        if exists|i: int|
            0 <= i < a.added.len() && (#[trigger] a.added[i]).kind.severity_of() == x {
            let i = choose|i: int|
                0 <= i < a.added.len() && (#[trigger] a.added[i]).kind.severity_of() == x;
            let k = b.added.index_of(a.added[i]);
            assert(b.added[k].kind.severity_of() == x);
            assert(gains(b, x));
        } else {
            assert(gains(b, Severity::Medium));
        }
    }
}

/// What is gained is shown whole: every signal and every dependency, or that there is none.
pub proof fn gains_are_shown_whole(d: DiffView)
    ensures
        ({
            let signals = "+ "@ + crate::text::decimal(d.added.len()) + " new signal(s):\n"@
                + crate::report::signal_lines("    "@, d.added);
            let names = "+ new dependencies: "@ + crate::text::joined(d.added_dependencies, ", "@)
                + "\n"@;
            &&& d.added.len() > 0 && d.added_dependencies.len() > 0 ==> gains_text(d) == signals
                + names
            &&& d.added.len() > 0 && d.added_dependencies.len() == 0 ==> gains_text(d) == signals
            &&& d.added.len() == 0 && d.added_dependencies.len() > 0 ==> gains_text(d) == names
            &&& d.added.len() == 0 && d.added_dependencies.len() == 0 ==> gains_text(d)
                == "no new capability signals.\n"@
        }),
{
    let signals = "+ "@ + crate::text::decimal(d.added.len()) + " new signal(s):\n"@
        + crate::report::signal_lines("    "@, d.added);
    let names = "+ new dependencies: "@ + crate::text::joined(d.added_dependencies, ", "@)
        + "\n"@;
    assert(signals + Seq::empty() =~= signals);
    assert(Seq::empty() + names =~= names);
}

/// What is lost is shown whole: every signal and every dependency, and nothing where there
/// is none.
pub proof fn losses_are_shown_whole(d: DiffView)
    ensures
        ({
            let signals = "- "@ + crate::text::decimal(d.removed.len())
                + " signal(s) no longer present:\n"@ + crate::report::signal_lines(
                "    "@,
                d.removed,
            );
            let names = "- removed dependencies: "@ + crate::text::joined(
                d.removed_dependencies,
                ", "@,
            ) + "\n"@;
            &&& d.removed.len() > 0 && d.removed_dependencies.len() > 0 ==> losses_text(d)
                == signals + names
            &&& d.removed.len() > 0 && d.removed_dependencies.len() == 0 ==> losses_text(d)
                == signals
            &&& d.removed.len() == 0 && d.removed_dependencies.len() > 0 ==> losses_text(d)
                == names
            &&& d.removed.len() == 0 && d.removed_dependencies.len() == 0 ==> losses_text(
                d,
            ).len() == 0
        }),
{
    let signals = "- "@ + crate::text::decimal(d.removed.len())
        + " signal(s) no longer present:\n"@ + crate::report::signal_lines("    "@, d.removed);
    let names = "- removed dependencies: "@ + crate::text::joined(d.removed_dependencies, ", "@)
        + "\n"@;
    assert(signals + Seq::empty() =~= signals);
    assert(Seq::empty() + names =~= names);
}

/// A diff is shown whole: both versions, what is gained, what is lost, and the worst
/// severity of what is gained.
pub proof fn diff_is_shown_whole(d: DiffView)
    ensures
        ({
            let body = d.old.0 + " "@ + d.old.1 + "  ->  "@ + d.new.0 + " "@ + d.new.1 + "\n"@
                + gains_text(d) + losses_text(d);
            match worst(d) {
                Some(severity) => diff_text(d) == body + ("\nworst new severity: "@
                    + severity.word() + "\n"@),
                None => diff_text(d) == body + "\nno new risk detected\n"@,
            }
        }),
{
}

} // verus!
