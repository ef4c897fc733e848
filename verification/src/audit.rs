//! Auditing all dependencies of a project against their latest versions.
use crate::diff::{diff_reports, exit_code, is_diff, worst, Diff, DiffView};
use crate::lockfile::LockedDependency;
use crate::report::CrateReport;
use crate::severity::Severity;
use crate::sort::{stable_sort, Order};
use crate::text::{pad, to_decimal};
use vstd::prelude::*;

verus! {

/// A dependency against its latest version; there is a diff where it is behind.
#[derive(Debug)]
pub struct AuditEntry {
    pub name: String,
    pub locked_version: String,
    pub latest_version: String,
    pub diff: Option<Diff>,
}

/// What an [`AuditEntry`] holds.
#[verifier::ext_equal]
pub struct AuditView {
    pub name: Seq<char>,
    pub locked_version: Seq<char>,
    pub latest_version: Seq<char>,
    pub diff: Option<DiffView>,
}

impl View for AuditEntry {
    type V = AuditView;

    open spec fn view(&self) -> AuditView {
        AuditView {
            name: self.name@,
            locked_version: self.locked_version@,
            latest_version: self.latest_version@,
            diff: match self.diff {
                Some(diff) => Some(diff@),
                None => None,
            },
        }
    }
}

impl Clone for AuditEntry {
    fn clone(&self) -> (r: AuditEntry)
        ensures
            r@ == self@,
    {
        let diff = match &self.diff {
            Some(diff) => Some(diff.clone()),
            None => None,
        };
        AuditEntry {
            name: self.name.clone(),
            locked_version: self.locked_version.clone(),
            latest_version: self.latest_version.clone(),
            diff,
        }
    }
}

/// What a list of entries holds.
pub open spec fn entry_views(list: Seq<AuditEntry>) -> Seq<AuditView> {
    list.map_values(|e: AuditEntry| e@)
}

/// The worst that an update to the latest version brings.
pub open spec fn entry_worst(entry: AuditView) -> Option<Severity> {
    match entry.diff {
        Some(diff) => worst(diff),
        None => None,
    }
}

impl AuditEntry {
    /// The worst that an update to the latest version brings.
    pub fn worst_severity(&self) -> (r: Option<Severity>)
        ensures
            r == entry_worst(self@),
    {
        match &self.diff {
            Some(diff) => diff.worst_severity(),
            None => None,
        }
    }
}

/// Tells whether a locked version is behind the latest one.
pub fn is_behind(locked: &LockedDependency, latest_version: &String) -> (r: bool)
    ensures
        r == (locked@.version != latest_version@),
{
    locked.version != *latest_version
}

/// Makes the entry for a dependency, with the reports on both versions where it is
/// behind.
pub fn audit_entry(
    locked: LockedDependency,
    latest_version: String,
    reports: Option<(CrateReport, CrateReport)>,
) -> (r: AuditEntry)
    ensures
        r@.name == locked@.name,
        r@.locked_version == locked@.version,
        r@.latest_version == latest_version@,
        match reports {
            Some((old, new)) => r@.diff is Some && is_diff(old@, new@, r@.diff->0),
            None => r@.diff is None,
        },
{
    let diff = match reports {
        Some((old, new)) => Some(diff_reports(&old, &new)),
        None => None,
    };
    AuditEntry { name: locked.name, locked_version: locked.version, latest_version, diff }
}

/// The worst of an entry is at least `min`.
pub open spec fn is_at_least(entry: AuditView, min: Severity) -> bool {
    match entry_worst(entry) {
        Some(severity) => severity.rank() >= min.rank(),
        None => false,
    }
}

/// The entries whose worst is at least `min`.
pub open spec fn at_least(entries: Seq<AuditView>, min: Severity) -> Seq<AuditView> {
    entries.filter(|e: AuditView| is_at_least(e, min))
}

/// Keeps the entries whose worst is at least `min`, in their order. An entry at the
/// latest version has no worst and is not kept.
pub fn filter_by_min_severity(entries: Vec<AuditEntry>, min: Severity) -> (r: Vec<AuditEntry>)
    ensures
        entry_views(r@) == at_least(entry_views(entries@), min),
{
    let ghost all = entry_views(entries@);
    let ghost p = |e: AuditView| is_at_least(e, min);
    let mut r: Vec<AuditEntry> = Vec::new();
    proof {
        reveal(Seq::filter);
    }
    assert(entry_views(r@) =~= all.take(0).filter(p));
    for entry in it: entries
        invariant
            it.seq() == entries@,
            all == entry_views(entries@),
            p == |e: AuditView| is_at_least(e, min),
            entry_views(r@) == all.take(it.index()).filter(p),
    {
        proof {
            reveal(Seq::filter);
        }
        assert(all.take(it.index() + 1).drop_last() =~= all.take(it.index()));
        let ghost before = entry_views(r@);
        let keep = match entry.worst_severity() {
            Some(severity) => severity.at_least(&min),
            None => false,
        };
        if keep {
            r.push(entry);
            assert(entry_views(r@) =~= before.push(entry@));
        }
    }
    assert(all.take(all.len() as int) =~= all);
    r
}

/// An entry brings something of this severity at worst.
pub open spec fn some_entry_is(entries: Seq<AuditView>, severity: Severity) -> bool {
    exists|i: int| 0 <= i < entries.len() && entry_worst(#[trigger] entries[i]) == Some(severity)
}

/// The worst that any update brings.
pub open spec fn worst_of_all(entries: Seq<AuditView>) -> Option<Severity> {
    if some_entry_is(entries, Severity::High) {
        Some(Severity::High)
    } else if some_entry_is(entries, Severity::Medium) {
        Some(Severity::Medium)
    } else if some_entry_is(entries, Severity::Low) {
        Some(Severity::Low)
    } else {
        None
    }
}

/// Tells the worst that any update brings.
pub fn audit_worst(entries: &Vec<AuditEntry>) -> (r: Option<Severity>)
    ensures
        r == worst_of_all(entry_views(entries@)),
{
    let ghost all = entry_views(entries@);
    let mut r: Option<Severity> = None;
    for i in 0..entries.len()
        invariant
            all == entry_views(entries@),
            r is Some ==> exists|k: int| 0 <= k < i && entry_worst(#[trigger] all[k]) == r,
            forall|k: int|
                0 <= k < i && entry_worst(#[trigger] all[k]) is Some ==> r is Some && r->0.rank()
                    >= entry_worst(all[k])->0.rank(),
    {
        assert(all[i as int] == entries@[i as int]@);
        if let Some(severity) = entries[i].worst_severity() {
            match r {
                Some(s) if s.at_least(&severity) => {},
                _ => {
                    r = Some(severity);
                },
            }
        }
    }
    r
}

/// The entries that are listed: all, or those that reach the threshold where there is one.
pub open spec fn listed(all: Seq<AuditView>, min: Option<Severity>) -> Seq<AuditView> {
    match min {
        Some(min) => at_least(all, min),
        None => all,
    }
}

/// Gives what comes of an audit: the exit code, which is told from all entries whatever
/// the threshold, and the entries that are listed.
pub fn audit_outcome(all: &Vec<AuditEntry>, min: Option<Severity>) -> (r: (i32, Vec<AuditEntry>))
    ensures
        r.0 == crate::diff::code(worst_of_all(entry_views(all@))),
        entry_views(r.1@) == listed(entry_views(all@), min),
{
    let code = exit_code(audit_worst(all));
    let mut copies: Vec<AuditEntry> = Vec::new();
    for i in 0..all.len()
        invariant
            entry_views(copies@) == entry_views(all@).take(i as int),
    {
        let ghost before = entry_views(copies@);
        copies.push(all[i].clone());
        assert(entry_views(copies@) =~= before.push(all@[i as int]@));
    }
    assert(entry_views(all@).take(all@.len() as int) =~= entry_views(all@));
    match min {
        Some(min) => (code, filter_by_min_severity(copies, min)),
        None => (code, copies),
    }
}

/// Where an entry stands by its worst; what brings nothing stands last.
pub open spec fn entry_rank(entry: AuditView) -> int {
    match entry_worst(entry) {
        Some(severity) => severity.rank(),
        None => -1,
    }
}

/// The entries with the worst updates first.
pub struct ByWorst;

impl Order<AuditEntry> for ByWorst {
    open spec fn le(a: AuditView, b: AuditView) -> bool {
        entry_rank(a) >= entry_rank(b)
    }

    proof fn total(a: AuditView, b: AuditView) {
    }

    proof fn transitive(a: AuditView, b: AuditView, c: AuditView) {
    }

    fn is_le(a: &AuditEntry, b: &AuditEntry) -> (r: bool) {
        match b.worst_severity() {
            None => true,
            Some(y) => match a.worst_severity() {
                None => false,
                Some(x) => x.at_least(&y),
            },
        }
    }
}

/// Puts the entries with the worst updates first and leaves the order as it is otherwise.
pub fn rank_entries(entries: Vec<AuditEntry>) -> (r: Vec<AuditEntry>)
    ensures
        crate::sort::is_stable_sort(
            crate::sort::order::<AuditEntry, ByWorst>(),
            entry_views(entries@),
            entry_views(r@),
        ),
{
    assert(crate::sort::views(entries@) =~= entry_views(entries@));
    let r = stable_sort::<AuditEntry, ByWorst>(entries);
    assert(crate::sort::views(r@) =~= entry_views(r@));
    r
}

/// How many entries are behind.
pub open spec fn behind_count(entries: Seq<AuditView>) -> nat
    decreases entries.len(),
{
    if entries.len() == 0 {
        0
    } else {
        behind_count(entries.drop_last()) + if entries.last().diff is Some {
            1nat
        } else {
            0nat
        }
    }
}

/// Counts the entries that are behind.
pub fn count_behind(entries: &Vec<AuditEntry>) -> (r: usize)
    ensures
        r == behind_count(entry_views(entries@)),
        r <= entries@.len(),
{
    let ghost all = entry_views(entries@);
    let mut r: usize = 0;
    for i in 0..entries.len()
        invariant
            all == entry_views(entries@),
            r == behind_count(all.take(i as int)),
            r <= i,
    {
        assert(all.take(i + 1).drop_last() =~= all.take(i as int));
        if entries[i].diff.is_some() {
            r = r + 1;
        }
    }
    assert(all.take(all.len() as int) =~= all);
    r
}

/// The line for an entry; one at the latest version has none.
pub open spec fn entry_line(entry: AuditView) -> Seq<char> {
    match entry.diff {
        Some(diff) => "  ["@ + crate::text::padded(
            match worst(diff) {
                Some(severity) => severity.word(),
                None => "none"@,
            },
            6,
        ) + "] "@ + crate::text::padded(entry.name, 24) + " "@ + entry.locked_version + " -> "@
            + entry.latest_version + "  (+"@ + crate::text::decimal(diff.added.len())
            + " signal(s), -"@ + crate::text::decimal(diff.removed.len()) + " signal(s)"@ + (
        if diff.added_dependencies.len() > 0 {
            ", +"@ + crate::text::decimal(diff.added_dependencies.len()) + " new dep(s)"@
        } else {
            Seq::empty()
        }) + ")\n"@,
        None => Seq::empty(),
    }
}

/// The lines for entries.
pub open spec fn entry_lines(entries: Seq<AuditView>) -> Seq<char>
    decreases entries.len(),
{
    if entries.len() == 0 {
        Seq::empty()
    } else {
        entry_lines(entries.drop_last()) + entry_line(entries.last())
    }
}

/// What an audit shows first: how many dependencies there are, and how many of them are
/// at the latest version.
pub open spec fn audit_header(all: Seq<AuditView>) -> Seq<char> {
    "audited "@ + crate::text::decimal(all.len()) + " registry dependencies ("@
        + crate::text::decimal((all.len() - behind_count(all)) as nat) + " already at latest)\n"@
}

/// An audit as it is shown: the header over all entries, and the lines for those that
/// are listed.
pub open spec fn audit_text(all: Seq<AuditView>, listed: Seq<AuditView>) -> Seq<char> {
    audit_header(all) + (if behind_count(listed) > 0 {
        crate::text::decimal(behind_count(listed)) + " have updates available:\n"@ + entry_lines(
            listed,
        ) + "\nrun `cargo capscan diff <name> <old> <new>` for details on any of the above.\n"@
    } else {
        Seq::empty()
    })
}

/// Puts the line for an entry at the end of `out`.
fn write_entry(out: &mut String, entry: &AuditEntry)
    ensures
        final(out)@ == old(out)@ + entry_line(entry@),
{
    let ghost before = out@;
    if let Some(diff) = &entry.diff {
        let word = match diff.worst_severity() {
            Some(severity) => severity.label(),
            None => "none",
        };
        out.append("  [");
        out.append(pad(word, 6).as_str());
        out.append("] ");
        out.append(pad(entry.name.as_str(), 24).as_str());
        out.append(" ");
        out.append(entry.locked_version.as_str());
        out.append(" -> ");
        out.append(entry.latest_version.as_str());
        out.append("  (+");
        out.append(to_decimal(diff.added.len()).as_str());
        out.append(" signal(s), -");
        out.append(to_decimal(diff.removed.len()).as_str());
        out.append(" signal(s)");
        if diff.added_dependencies.len() > 0 {
            out.append(", +");
            out.append(to_decimal(diff.added_dependencies.len()).as_str());
            out.append(" new dep(s)");
        }
        out.append(")\n");
    }
    assert(out@ =~= before + entry_line(entry@));
}

/// Writes an audit as it is shown: the header over all entries, and the lines for those
/// that are listed.
pub fn render_audit(all: &Vec<AuditEntry>, listed: &Vec<AuditEntry>) -> (out: String)
    ensures
        out@ == audit_text(entry_views(all@), entry_views(listed@)),
{
    let mut out = String::new();
    out.append("audited ");
    out.append(to_decimal(all.len()).as_str());
    out.append(" registry dependencies (");
    out.append(to_decimal(all.len() - count_behind(all)).as_str());
    out.append(" already at latest)\n");
    assert(out@ =~= audit_header(entry_views(all@)));
    let updates: usize = count_behind(listed);
    if updates > 0 {
        out.append(to_decimal(updates).as_str());
        out.append(" have updates available:\n");
        let ghost before = out@;
        let ghost lines = entry_views(listed@);
        assert(before =~= before + entry_lines(lines.take(0)));
        for i in 0..listed.len()
            invariant
                lines == entry_views(listed@),
                out@ == before + entry_lines(lines.take(i as int)),
        {
            assert(lines.take(i + 1).drop_last() =~= lines.take(i as int));
            write_entry(&mut out, &listed[i]);
            assert(out@ =~= before + entry_lines(lines.take(i + 1)));
        }
        assert(lines.take(lines.len() as int) =~= lines);
        out.append(
            "\nrun `cargo capscan diff <name> <old> <new>` for details on any of the above.\n",
        );
    }
    assert(out@ =~= audit_text(entry_views(all@), entry_views(listed@)));
    out
}

/// Filtering hides nothing that reaches the threshold: where the worst of all entries
/// does, it is the worst of those that are kept, and otherwise none is kept.
pub proof fn filter_keeps_the_worst(entries: Seq<AuditView>, min: Severity)
    ensures
        match worst_of_all(entries) {
            Some(severity) if severity.rank() >= min.rank() => worst_of_all(
                at_least(entries, min),
            ) == Some(severity),
            _ => at_least(entries, min).len() == 0,
        },
{
    let p = |e: AuditView| is_at_least(e, min);
    let kept = at_least(entries, min);
    assert forall|severity: Severity| severity.rank() >= min.rank() implies #[trigger]
        some_entry_is(kept, severity) == some_entry_is(entries, severity) by {
        if some_entry_is(entries, severity) {
            let i = choose|i: int|
                0 <= i < entries.len() && entry_worst(#[trigger] entries[i]) == Some(severity);
            entries.lemma_filter_contains(p, i);
            let k = kept.index_of(entries[i]);
            assert(entry_worst(kept[k]) == Some(severity));
        }
        if some_entry_is(kept, severity) {
            let k = choose|k: int|
                0 <= k < kept.len() && entry_worst(#[trigger] kept[k]) == Some(severity);
            assert(kept.contains(kept[k]));
            crate::sort::filter_is_contained(entries, p, kept[k]);
            let i = entries.index_of(kept[k]);
            assert(entry_worst(entries[i]) == Some(severity));
        }
    }
    assert forall|severity: Severity| severity.rank() < min.rank() implies
        !#[trigger] some_entry_is(kept, severity) by {
        if some_entry_is(kept, severity) {
            let k = choose|k: int|
                0 <= k < kept.len() && entry_worst(#[trigger] kept[k]) == Some(severity);
            entries.lemma_filter_pred(p, k);
        }
    }
    if kept.len() > 0 {
        entries.lemma_filter_pred(p, 0);
        assert(some_entry_is(kept, entry_worst(kept[0])->0));
    }
    assert(some_entry_is(kept, Severity::High) == (some_entry_is(entries, Severity::High)
        && Severity::High.rank() >= min.rank()));
    assert(some_entry_is(kept, Severity::Medium) == (some_entry_is(entries, Severity::Medium)
        && Severity::Medium.rank() >= min.rank()));
    assert(some_entry_is(kept, Severity::Low) == (some_entry_is(entries, Severity::Low)
        && Severity::Low.rank() >= min.rank()));
}

/// A filter keeps the entries that reach the threshold and no others, and what the lowest
/// threshold leaves out brings nothing.
pub proof fn filter_keeps_what_reaches(entries: Seq<AuditView>, min: Severity, entry: AuditView)
    ensures
        at_least(entries, min).contains(entry) == (entries.contains(entry) && is_at_least(
            entry,
            min,
        )),
        !is_at_least(entry, Severity::Low) <==> entry_worst(entry) is None,
{
    let p = |e: AuditView| is_at_least(e, min);
    if entries.contains(entry) && is_at_least(entry, min) {
        let i = entries.index_of(entry);
        entries.lemma_filter_contains(p, i);
    }
    if at_least(entries, min).contains(entry) {
        crate::sort::filter_is_contained(entries, p, entry);
    }
}

/// What is shown first does not depend on what is listed.
pub proof fn header_reflects_all(
    all: Seq<AuditView>,
    listed: Seq<AuditView>,
)
    ensures
        audit_header(all).is_prefix_of(audit_text(all, listed)),
{
    let text = audit_text(all, listed);
    assert(text.subrange(0, audit_header(all).len() as int) =~= audit_header(all));
}

/// The worst of all entries is at least that of each, and an exit code of 0 means that no
/// update is of medium or high severity.
pub proof fn worst_of_all_is_the_maximum(entries: Seq<AuditView>, i: int)
    requires
        0 <= i < entries.len(),
    ensures
        entry_worst(entries[i]) matches Some(severity) ==> worst_of_all(entries) is Some
            && worst_of_all(entries)->0.rank() >= severity.rank(),
        crate::diff::code(worst_of_all(entries)) >= crate::diff::code(entry_worst(entries[i])),
{
    if let Some(severity) = entry_worst(entries[i]) {
        assert(some_entry_is(entries, severity));
    }
}

/// Entries are seen with all that they hold.
pub proof fn entries_are_seen_whole(entry: AuditEntry, list: Seq<AuditEntry>)
    ensures
        entry@.name == entry.name@,
        entry@.locked_version == entry.locked_version@,
        entry@.latest_version == entry.latest_version@,
        match entry.diff {
            Some(diff) => entry@.diff == Some(diff@),
            None => entry@.diff is None,
        },
        entry_views(list).len() == list.len(),
        forall|i: int| 0 <= i < list.len() ==> #[trigger] entry_views(list)[i] == list[i]@,
{
}

/// The worst of an entry is that of what its diff adds: high exactly where a signal of
/// high severity is added, otherwise medium exactly where one of medium severity or a
/// dependency is added, and none exactly where it has no diff or the diff adds nothing.
pub proof fn entry_is_as_grave_as_its_diff(entry: AuditView)
    ensures
        match entry.diff {
            Some(diff) => {
                &&& entry_worst(entry) == worst(diff)
                &&& entry_worst(entry) == Some(Severity::High) <==> exists|i: int|
                    0 <= i < diff.added.len() && (#[trigger] diff.added[i]).kind.severity_of()
                        == Severity::High
                &&& entry_worst(entry) == Some(Severity::Medium) <==> (forall|i: int|
                    0 <= i < diff.added.len() ==> (#[trigger] diff.added[i]).kind.severity_of()
                        != Severity::High) && (diff.added_dependencies.len() > 0 || exists|i: int|
                    0 <= i < diff.added.len() && (#[trigger] diff.added[i]).kind.severity_of()
                        == Severity::Medium)
                &&& entry_worst(entry) is None <==> diff.added.len() == 0
                    && diff.added_dependencies.len() == 0
            },
            None => entry_worst(entry) is None,
        },
{
    if let Some(diff) = entry.diff {
        crate::diff::worst_is_that_of_what_is_added(diff);
    }
}

/// What an update removes has no part in its worst: two entries whose diffs add the same
/// signals and as many dependencies have the same.
pub proof fn losses_of_an_update_do_not_count(a: AuditView, b: AuditView)
    requires
        a.diff is Some,
        b.diff is Some,
        a.diff->0.added == b.diff->0.added,
        a.diff->0.added_dependencies.len() == b.diff->0.added_dependencies.len(),
    ensures
        entry_worst(a) == entry_worst(b),
{
    crate::diff::losses_do_not_count(a.diff->0, b.diff->0);
}

/// Entries are kept one by one: an entry by its own worst alone, and in its order.
pub proof fn entries_are_kept_one_by_one(
    a: Seq<AuditView>,
    b: Seq<AuditView>,
    entry: AuditView,
    min: Severity,
)
    ensures
        at_least(a + b, min) == at_least(a, min) + at_least(b, min),
        at_least(Seq::empty(), min).len() == 0,
        match entry_worst(entry) {
            Some(severity) => if severity.rank() >= min.rank() {
                at_least(seq![entry], min) == seq![entry]
            } else {
                at_least(seq![entry], min).len() == 0
            },
            None => at_least(seq![entry], min).len() == 0,
        },
        listed(a, Some(min)) == at_least(a, min),
        listed(a, None) == a,
{
    let p = |e: AuditView| is_at_least(e, min);
    Seq::filter_distributes_over_add(a, b, p);
    reveal(Seq::filter);
    assert(seq![entry].drop_last() =~= Seq::empty());
    assert(seq![entry].last() == entry);
    assert(seq![entry].drop_last().filter(p) =~= Seq::empty());
    if p(entry) {
        assert(seq![entry].filter(p) =~= seq![entry]);
    }
}

/// The worst of all is high exactly where that of an entry is, otherwise medium exactly
/// where that of an entry is, otherwise low exactly where that of an entry is.
pub proof fn worst_of_all_is_that_of_an_entry(entries: Seq<AuditView>)
    ensures
        worst_of_all(entries) == Some(Severity::High) <==> exists|i: int|
            0 <= i < entries.len() && entry_worst(#[trigger] entries[i]) == Some(Severity::High),
        worst_of_all(entries) == Some(Severity::Medium) <==> (forall|i: int|
            0 <= i < entries.len() ==> entry_worst(#[trigger] entries[i]) != Some(Severity::High))
            && exists|i: int|
            0 <= i < entries.len() && entry_worst(#[trigger] entries[i]) == Some(Severity::Medium),
        worst_of_all(entries) is None <==> forall|i: int|
            0 <= i < entries.len() ==> entry_worst(#[trigger] entries[i]) is None,
{
    if exists|i: int| 0 <= i < entries.len() && entry_worst(#[trigger] entries[i]) is Some {
        let i = choose|i: int|
            0 <= i < entries.len() && entry_worst(#[trigger] entries[i]) is Some;
        assert(some_entry_is(entries, entry_worst(entries[i])->0));
    }
}

/// Ranking loses and adds nothing, puts no entry before one with a worse update, what
/// brings nothing last, and leaves the order as it is otherwise.
pub proof fn worst_updates_are_ranked_first(
    entries: Seq<AuditView>,
    ranked: Seq<AuditView>,
    i: int,
    j: int,
)
    requires
        crate::sort::is_stable_sort(
            crate::sort::order::<AuditEntry, ByWorst>(),
            entries,
            ranked,
        ),
        0 <= i < j < ranked.len(),
    ensures
        ranked.to_multiset() == entries.to_multiset(),
        entry_worst(ranked[j]) matches Some(y) ==> entry_worst(ranked[i]) is Some && entry_worst(
            ranked[i],
        )->0.rank() >= y.rank(),
        entry_worst(ranked[i]) == entry_worst(ranked[j]) ==> exists|p: int, q: int|
            0 <= p < q < entries.len() && #[trigger] entries[p] == ranked[i]
                && #[trigger] entries[q] == ranked[j],
{
    crate::sort::stable_sort_keeps_counts::<AuditEntry, ByWorst>(entries, ranked);
    assert(crate::sort::order::<AuditEntry, ByWorst>()(ranked[i], ranked[j]));
    if entry_worst(ranked[i]) == entry_worst(ranked[j]) {
        let (p, q) = crate::sort::stable_sort_keeps_order::<AuditEntry, ByWorst>(
            entries,
            ranked,
            i,
            j,
        );
        assert(entries[p] == ranked[i] && entries[q] == ranked[j]);
    }
}

/// An entry is behind where it has a diff, and entries are counted one by one.
pub proof fn entries_behind_add_up(a: Seq<AuditView>, b: Seq<AuditView>, entry: AuditView)
    ensures
        behind_count(a + b) == behind_count(a) + behind_count(b),
        behind_count(seq![entry]) == if entry.diff is Some {
            1nat
        } else {
            0nat
        },
        behind_count(Seq::empty()) == 0,
    decreases b.len(),
{
    if b.len() == 0 {
        assert(a + b =~= a);
    } else {
        entries_behind_add_up(a, b.drop_last(), entry);
        assert((a + b).drop_last() =~= a + b.drop_last());
    }
    assert(seq![entry].drop_last() =~= Seq::empty());
    assert(behind_count(seq![entry].drop_last()) == 0);
    assert(seq![entry].last() == entry);
}

/// Each entry that is behind is shown on a line of its own, with its worst, its name, both
/// versions and how much it gains and loses; others are not shown.
pub proof fn entries_are_shown_line_by_line(
    a: Seq<AuditView>,
    b: Seq<AuditView>,
    entry: AuditView,
)
    ensures
        entry_lines(a + b) == entry_lines(a) + entry_lines(b),
        entry_lines(Seq::empty()).len() == 0,
        match entry.diff {
            Some(diff) => {
                let word = match entry_worst(entry) {
                    Some(severity) => severity.word(),
                    None => "none"@,
                };
                let front = "  ["@ + crate::text::padded(word, 6) + "] "@ + crate::text::padded(
                    entry.name,
                    24,
                ) + " "@ + entry.locked_version + " -> "@ + entry.latest_version + "  (+"@
                    + crate::text::decimal(diff.added.len()) + " signal(s), -"@
                    + crate::text::decimal(diff.removed.len()) + " signal(s)"@;
                &&& diff.added_dependencies.len() > 0 ==> entry_lines(seq![entry]) == front
                    + ", +"@ + crate::text::decimal(diff.added_dependencies.len())
                    + " new dep(s)"@ + ")\n"@
                &&& diff.added_dependencies.len() == 0 ==> entry_lines(seq![entry]) == front
                    + ")\n"@
            },
            None => entry_lines(seq![entry]).len() == 0,
        },
    decreases b.len(),
{
    if b.len() == 0 {
        assert(a + b =~= a);
        assert(entry_lines(a) =~= entry_lines(a) + entry_lines(b));
    } else {
        entries_are_shown_line_by_line(a, b.drop_last(), entry);
        assert((a + b).drop_last() =~= a + b.drop_last());
        assert(entry_lines(a + b) =~= entry_lines(a) + entry_lines(b));
    }
    assert(seq![entry].drop_last() =~= Seq::empty());
    assert(entry_lines(seq![entry].drop_last()) =~= Seq::empty());
    assert(seq![entry].last() == entry);
    assert(entry_lines(seq![entry]) =~= entry_line(entry));
}

/// An audit is shown with how many entries there are and how many are not behind, and then
/// every entry that is listed and behind, where there is one.
pub proof fn audit_is_shown_whole(all: Seq<AuditView>, some: Seq<AuditView>)
    ensures
        ({
            let head = "audited "@ + crate::text::decimal(all.len()) + " registry dependencies ("@
                + crate::text::decimal((all.len() - behind_count(all)) as nat)
                + " already at latest)\n"@;
            &&& behind_count(some) == 0 ==> audit_text(all, some) == head
            &&& behind_count(some) > 0 ==> audit_text(all, some) == head + crate::text::decimal(
                behind_count(some),
            ) + " have updates available:\n"@ + entry_lines(some)
                + "\nrun `cargo capscan diff <name> <old> <new>` for details on any of the above.\n"@
        }),
{
}

} // verus!
