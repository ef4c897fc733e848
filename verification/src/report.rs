//! The capability report of one version of a crate.
use crate::signal::{signal_views, Signal, SignalKind, SignalView};
use crate::text::{copy_texts, join, texts, to_decimal};
use vstd::prelude::*;

verus! {

/// What one version of a crate can do, as far as its source shows.
#[derive(Debug)]
pub struct CrateReport {
    pub name: String,
    pub version: String,
    pub files_scanned: usize,
    pub lines_scanned: usize,
    pub dependencies: Vec<String>,
    pub signals: Vec<Signal>,
}

/// What a [`CrateReport`] holds.
#[verifier::ext_equal]
pub struct ReportView {
    pub name: Seq<char>,
    pub version: Seq<char>,
    pub files_scanned: usize,
    pub lines_scanned: usize,
    pub dependencies: Seq<Seq<char>>,
    pub signals: Seq<SignalView>,
}

impl View for CrateReport {
    type V = ReportView;

    open spec fn view(&self) -> ReportView {
        ReportView {
            name: self.name@,
            version: self.version@,
            files_scanned: self.files_scanned,
            lines_scanned: self.lines_scanned,
            dependencies: texts(self.dependencies@),
            signals: signal_views(self.signals@),
        }
    }
}

/// Copies a list of signals.
pub fn copy_signals(list: &Vec<Signal>) -> (r: Vec<Signal>)
    ensures
        signal_views(r@) == signal_views(list@),
{
    let mut r: Vec<Signal> = Vec::new();
    for i in 0..list.len()
        invariant
            signal_views(r@) == signal_views(list@).take(i as int),
    {
        let ghost before = signal_views(r@);
        r.push(list[i].clone());
        assert(signal_views(r@) =~= before.push(list@[i as int]@));
    }
    assert(signal_views(list@).take(list@.len() as int) =~= signal_views(list@));
    r
}

impl Clone for CrateReport {
    fn clone(&self) -> (r: CrateReport)
        ensures
            r@ == self@,
    {
        CrateReport {
            name: self.name.clone(),
            version: self.version.clone(),
            files_scanned: self.files_scanned,
            lines_scanned: self.lines_scanned,
            dependencies: copy_texts(&self.dependencies),
            signals: copy_signals(&self.signals),
        }
    }
}

/// How many signals are of a kind.
pub open spec fn occurrences(signals: Seq<SignalView>, kind: SignalKind) -> nat {
    signals.filter(|s: SignalView| s.kind == kind).len()
}

/// The sum of all counts.
pub open spec fn total(counts: Seq<(SignalKind, usize)>) -> nat
    decreases counts.len(),
{
    if counts.len() == 0 {
        0
    } else {
        total(counts.drop_last()) + counts.last().1 as nat
    }
}

/// `counts` gives each kind that occurs among `signals`, once, with how often it occurs.
pub open spec fn are_counts(counts: Seq<(SignalKind, usize)>, signals: Seq<SignalView>) -> bool {
    &&& forall|i: int, j: int|
        0 <= i < j < counts.len() ==> (#[trigger] counts[i]).0 != (#[trigger] counts[j]).0
    &&& forall|i: int|
        0 <= i < counts.len() ==> (#[trigger] counts[i]).1 > 0 && counts[i].1 == occurrences(
            signals,
            counts[i].0,
        )
    &&& forall|kind: SignalKind| #[trigger]
        occurrences(signals, kind) > 0 ==> exists|i: int|
            0 <= i < counts.len() && (#[trigger] counts[i]).0 == kind
}

proof fn total_of_update(counts: Seq<(SignalKind, usize)>, at: int, count: usize)
    requires
        0 <= at < counts.len(),
    ensures
        total(counts.update(at, (counts[at].0, count))) == total(counts) - counts[at].1 + count,
    decreases counts.len(),
{
    let changed = counts.update(at, (counts[at].0, count));
    if at == counts.len() - 1 {
        assert(changed.drop_last() =~= counts.drop_last());
    } else {
        total_of_update(counts.drop_last(), at, count);
        assert(changed.drop_last() =~= counts.drop_last().update(at, (counts[at].0, count)));
    }
}

proof fn occurrences_of_push(signals: Seq<SignalView>, s: SignalView, kind: SignalKind)
    ensures
        occurrences(signals.push(s), kind) == occurrences(signals, kind) + if s.kind == kind {
            1nat
        } else {
            0nat
        },
        occurrences(signals, kind) <= signals.len(),
{
    let p = |s: SignalView| s.kind == kind;
    reveal(Seq::filter);
    assert(signals.push(s).drop_last() =~= signals);
    signals.lemma_filter_len(p);
}

impl CrateReport {
    /// Counts the signals of each kind that occurs.
    pub fn counts(&self) -> (r: Vec<(SignalKind, usize)>)
        ensures
            are_counts(r@, self@.signals),
            total(r@) == self@.signals.len(),
    {
        let mut r: Vec<(SignalKind, usize)> = Vec::new();
        let ghost signals = self@.signals;
        assert(signals.take(0) =~= Seq::empty());
        assert(forall|kind: SignalKind| #[trigger] occurrences(signals.take(0), kind) == 0) by {
            reveal(Seq::filter);
        }
        for i in 0..self.signals.len()
            invariant
                signals == signal_views(self.signals@),
                are_counts(r@, signals.take(i as int)),
                total(r@) == i,
        {
            let kind = self.signals[i].kind;
            let ghost before = r@;
            let ghost seen = signals.take(i as int);
            let ghost s = self.signals@[i as int]@;
            assert(signals.take(i + 1) =~= seen.push(s));
            let mut at: usize = 0;
            while at < r.len() && r[at].0 != kind
                invariant
                    at <= r@.len(),
                    forall|k: int| 0 <= k < at ==> (#[trigger] r@[k]).0 != kind,
                decreases r@.len() - at,
            {
                at = at + 1;
            }
            proof {
                assert forall|k: SignalKind| #[trigger]
                    occurrences(seen.push(s), k) == occurrences(seen, k) + if k == kind {
                        1nat
                    } else {
                        0nat
                    } by {
                    occurrences_of_push(seen, s, k);
                }
                occurrences_of_push(seen, s, kind);
            }
            if at < r.len() {
                let count: usize = r[at].1;
                assert(before[at as int].1 == occurrences(seen, kind));
                r.set(at, (kind, count + 1));
                proof {
                    total_of_update(before, at as int, (count + 1) as usize);
                    assert forall|k: SignalKind| #[trigger]
                        occurrences(seen.push(s), k) > 0 implies exists|j: int|
                        0 <= j < r@.len() && (#[trigger] r@[j]).0 == k by {
                        if k == kind {
                            assert(r@[at as int].0 == k);
                        } else {
                            assert(occurrences(seen, k) > 0);
                            let j = choose|j: int|
                                0 <= j < before.len() && (#[trigger] before[j]).0 == k;
                            assert(r@[j].0 == k);
                        }
                    }
                }
            } else {
                r.push((kind, 1));
                proof {
                    assert(r@.drop_last() =~= before);
                    assert(occurrences(seen, kind) == 0);
                    assert forall|k: SignalKind| #[trigger]
                        occurrences(seen.push(s), k) > 0 implies exists|j: int|
                        0 <= j < r@.len() && (#[trigger] r@[j]).0 == k by {
                        if k == kind {
                            assert(r@[at as int].0 == k);
                        } else {
                            assert(occurrences(seen, k) > 0);
                            let j = choose|j: int|
                                0 <= j < before.len() && (#[trigger] before[j]).0 == k;
                            assert(r@[j].0 == k);
                        }
                    }
                }
            }
        }
        assert(signals.take(signals.len() as int) =~= signals);
        r
    }
}

/// The line for a signal.
pub open spec fn signal_line(indent: Seq<char>, s: SignalView) -> Seq<char> {
    indent + "["@ + s.kind.severity_of().word() + "] "@ + s.file + ":"@ + crate::text::decimal(
        s.line as nat,
    ) + "  "@ + s.kind.words() + " -- "@ + s.detail + "\n"@
}

/// The lines for a list of signals.
pub open spec fn signal_lines(indent: Seq<char>, signals: Seq<SignalView>) -> Seq<char>
    decreases signals.len(),
{
    if signals.len() == 0 {
        Seq::empty()
    } else {
        signal_lines(indent, signals.drop_last()) + signal_line(indent, signals.last())
    }
}

/// Puts the line for a signal at the end of `out`.
fn write_signal(out: &mut String, indent: &str, s: &Signal)
    ensures
        final(out)@ == old(out)@ + signal_line(indent@, s@),
{
    let ghost before = out@;
    out.append(indent);
    out.append("[");
    out.append(s.kind.severity().label());
    out.append("] ");
    out.append(s.file.as_str());
    out.append(":");
    out.append(to_decimal(s.line).as_str());
    out.append("  ");
    out.append(s.kind.label());
    out.append(" -- ");
    out.append(s.detail.as_str());
    out.append("\n");
    assert(out@ =~= before + signal_line(indent@, s@));
}

/// Puts the lines for signals at the end of `out`.
pub fn write_signals(out: &mut String, indent: &str, signals: &Vec<Signal>)
    ensures
        final(out)@ == old(out)@ + signal_lines(indent@, signal_views(signals@)),
{
    let ghost before = out@;
    let ghost all = signal_views(signals@);
    assert(before =~= before + signal_lines(indent@, all.take(0)));
    for i in 0..signals.len()
        invariant
            all == signal_views(signals@),
            out@ == before + signal_lines(indent@, all.take(i as int)),
    {
        assert(all.take(i + 1).drop_last() =~= all.take(i as int));
        write_signal(out, indent, &signals[i]);
        assert(out@ =~= before + signal_lines(indent@, all.take(i + 1)));
    }
    assert(all.take(all.len() as int) =~= all);
}

/// A report as it is shown.
pub open spec fn report_text(r: ReportView) -> Seq<char> {
    r.name + " "@ + r.version + "  ("@ + crate::text::decimal(r.files_scanned as nat)
        + " files scanned, "@ + crate::text::decimal(r.lines_scanned as nat) + " lines)\n"@
        + "dependencies: "@ + crate::text::joined(r.dependencies, ", "@) + "\n"@ + (
    if r.signals.len() == 0 {
        "no capability signals found.\n"@
    } else {
        signal_lines("  "@, r.signals)
    })
}

/// Writes a report as it is shown.
pub fn render_report(r: &CrateReport) -> (out: String)
    ensures
        out@ == report_text(r@),
{
    let mut out = String::new();
    out.append(r.name.as_str());
    out.append(" ");
    out.append(r.version.as_str());
    out.append("  (");
    out.append(to_decimal(r.files_scanned).as_str());
    out.append(" files scanned, ");
    out.append(to_decimal(r.lines_scanned).as_str());
    out.append(" lines)\n");
    out.append("dependencies: ");
    out.append(join(&r.dependencies, ", ").as_str());
    out.append("\n");
    if r.signals.len() == 0 {
        out.append("no capability signals found.\n");
    } else {
        write_signals(&mut out, "  ", &r.signals);
    }
    assert(out@ =~= report_text(r@));
    out
}

/// A report is seen with all that it holds.
pub proof fn reports_are_seen_whole(r: CrateReport)
    ensures
        r@.name == r.name@,
        r@.version == r.version@,
        r@.files_scanned == r.files_scanned,
        r@.lines_scanned == r.lines_scanned,
        r@.dependencies == texts(r.dependencies@),
        r@.signals == signal_views(r.signals@),
{
}

/// A kind occurs as often as signals of it are put together.
pub proof fn occurrences_add_up(
    a: Seq<SignalView>,
    b: Seq<SignalView>,
    s: SignalView,
    kind: SignalKind,
)
    ensures
        occurrences(Seq::empty(), kind) == 0,
        occurrences(seq![s], kind) == if s.kind == kind {
            1nat
        } else {
            0nat
        },
        occurrences(a + b, kind) == occurrences(a, kind) + occurrences(b, kind),
{
    let p = |s: SignalView| s.kind == kind;
    Seq::filter_distributes_over_add(a, b, p);
    reveal(Seq::filter);
    assert(seq![s] =~= Seq::<SignalView>::empty().push(s));
    occurrences_of_push(Seq::empty(), s, kind);
}

/// The counts give a kind with a number exactly where the kind occurs that often, and not
/// where it does not occur.
pub proof fn counts_tell_occurrences(
    counts: Seq<(SignalKind, usize)>,
    signals: Seq<SignalView>,
    kind: SignalKind,
    count: usize,
)
    requires
        are_counts(counts, signals),
    ensures
        counts.contains((kind, count)) <==> count > 0 && count == occurrences(signals, kind),
        occurrences(signals, kind) > 0 ==> exists|i: int|
            0 <= i < counts.len() && (#[trigger] counts[i]).0 == kind,
        counts.no_duplicates(),
{
    if counts.contains((kind, count)) {
        let i = counts.index_of((kind, count));
        assert(counts[i].1 == occurrences(signals, counts[i].0));
    }
    if count > 0 && count == occurrences(signals, kind) {
        let i = choose|i: int| 0 <= i < counts.len() && (#[trigger] counts[i]).0 == kind;
        assert(counts[i] == (kind, count));
    }
    assert forall|i: int, j: int| 0 <= i < counts.len() && 0 <= j < counts.len() && i
        != j implies counts[i] != counts[j] by {
        if i < j {
            assert(counts[i].0 != counts[j].0);
        } else {
            assert(counts[j].0 != counts[i].0);
        }
    }
}

/// Signals are shown line by line: those of two lists put together are shown as the first
/// followed by the second, and each with its severity, place, kind and detail.
pub proof fn signals_are_shown_line_by_line(
    indent: Seq<char>,
    a: Seq<SignalView>,
    b: Seq<SignalView>,
    s: SignalView,
)
    ensures
        signal_lines(indent, Seq::empty()).len() == 0,
        signal_lines(indent, seq![s]) == indent + "["@ + s.kind.severity_of().word() + "] "@
            + s.file + ":"@ + crate::text::decimal(s.line as nat) + "  "@ + s.kind.words()
            + " -- "@ + s.detail + "\n"@,
        signal_lines(indent, a + b) == signal_lines(indent, a) + signal_lines(indent, b),
    decreases b.len(),
{
    if b.len() == 0 {
        assert(a + b =~= a);
        assert(signal_lines(indent, a) =~= signal_lines(indent, a) + signal_lines(indent, b));
    } else {
        signals_are_shown_line_by_line(indent, a, b.drop_last(), s);
        assert((a + b).drop_last() =~= a + b.drop_last());
        assert(signal_lines(indent, a + b) =~= signal_lines(indent, a) + signal_lines(indent, b));
    }
    assert(seq![s].drop_last() =~= Seq::empty());
    assert(seq![s].last() == s);
    assert(signal_lines(indent, seq![s].drop_last()) =~= Seq::empty());
    assert(signal_lines(indent, seq![s]) =~= signal_line(indent, s));
}

/// A report is shown with its name, version, counts and dependencies, and then every
/// signal, or that there is none.
pub proof fn report_is_shown_whole(r: ReportView)
    ensures
        ({
            let head = r.name + " "@ + r.version + "  ("@ + crate::text::decimal(
                r.files_scanned as nat,
            ) + " files scanned, "@ + crate::text::decimal(r.lines_scanned as nat) + " lines)\n"@
                + "dependencies: "@ + crate::text::joined(r.dependencies, ", "@) + "\n"@;
            &&& r.signals.len() == 0 ==> report_text(r) == head + "no capability signals found.\n"@
            &&& r.signals.len() > 0 ==> report_text(r) == head + signal_lines("  "@, r.signals)
        }),
{
}

/// Counts add up over lists of them.
pub proof fn totals_add_up(
    a: Seq<(SignalKind, usize)>,
    b: Seq<(SignalKind, usize)>,
    count: (SignalKind, usize),
)
    ensures
        total(a + b) == total(a) + total(b),
        total(seq![count]) == count.1,
        total(Seq::empty()) == 0,
    decreases b.len(),
{
    if b.len() == 0 {
        assert(a + b =~= a);
    } else {
        totals_add_up(a, b.drop_last(), count);
        assert((a + b).drop_last() =~= a + b.drop_last());
    }
    assert(seq![count].drop_last() =~= Seq::empty());
    assert(total(seq![count].drop_last()) == 0);
    assert(seq![count].last() == count);
}

} // verus!
