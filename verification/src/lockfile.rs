//! Lockfiles: which versions they pin, and what changes from one to another.
use crate::diff::{diff_reports, is_diff, Diff};
use crate::document::{find_text, parse_document, Document, DocumentView, FieldsView};
use crate::names::sort_and_dedup;
use crate::report::{CrateReport, ReportView};
use crate::text::{chars_of, starts_with, texts};
use vstd::prelude::*;

verus! {

/// A dependency at the version that a lockfile pins.
#[derive(Debug, PartialEq, Eq)]
pub struct LockedDependency {
    pub name: String,
    pub version: String,
}

/// What a [`LockedDependency`] holds.
#[verifier::ext_equal]
pub struct LockedView {
    pub name: Seq<char>,
    pub version: Seq<char>,
}

impl View for LockedDependency {
    type V = LockedView;

    open spec fn view(&self) -> LockedView {
        LockedView { name: self.name@, version: self.version@ }
    }
}

impl Clone for LockedDependency {
    fn clone(&self) -> (r: LockedDependency)
        ensures
            r@ == self@,
    {
        LockedDependency { name: self.name.clone(), version: self.version.clone() }
    }
}

/// What a list of dependencies holds.
pub open spec fn locked_views(list: Seq<LockedDependency>) -> Seq<LockedView> {
    list.map_values(|d: LockedDependency| d@)
}

/// The dependency that a package of a lockfile is, where it comes from a registry and
/// has a name and a version.
pub open spec fn registry_package(package: FieldsView) -> Option<LockedView> {
    match (
        crate::document::text_at(package, "source"@),
        crate::document::text_at(package, "name"@),
        crate::document::text_at(package, "version"@),
    ) {
        (Some(source), Some(name), Some(version)) => if "registry+"@.is_prefix_of(source) {
            Some(LockedView { name, version })
        } else {
            None
        },
        _ => None,
    }
}

/// The dependencies among packages that come from a registry, in their order.
pub open spec fn registry_packages(packages: Seq<Option<FieldsView>>) -> Seq<LockedView>
    decreases packages.len(),
{
    if packages.len() == 0 {
        Seq::empty()
    } else {
        let earlier = registry_packages(packages.drop_last());
        match packages.last() {
            Some(package) => match registry_package(package) {
                Some(dependency) => earlier.push(dependency),
                None => earlier,
            },
            None => earlier,
        }
    }
}

/// The dependencies that a lockfile pins and that come from a registry.
pub open spec fn locked_dependencies(lockfile: DocumentView) -> Seq<LockedView> {
    match crate::document::list_at(lockfile, "package"@) {
        Some(packages) => registry_packages(packages),
        None => Seq::empty(),
    }
}

/// Gives the dependency that a package of a lockfile is.
fn find_registry_package(package: &crate::document::Fields) -> (r: Option<LockedDependency>)
    ensures
        match r {
            Some(dependency) => registry_package(crate::document::fields_view(package@)) == Some(
                dependency@,
            ),
            None => registry_package(crate::document::fields_view(package@)) is None,
        },
{
    if let Some(source) = find_text(package, "source") {
        if starts_with(&chars_of(source.as_str()), "registry+") {
            if let Some(name) = find_text(package, "name") {
                if let Some(version) = find_text(package, "version") {
                    return Some(
                        LockedDependency { name: name.clone(), version: version.clone() },
                    );
                }
            }
        }
    }
    None
}

/// Lists the dependencies of a lockfile that come from a registry.
pub fn find_locked(lockfile: &Document) -> (r: Vec<LockedDependency>)
    ensures
        locked_views(r@) == locked_dependencies(lockfile@),
{
    let mut r: Vec<LockedDependency> = Vec::new();
    assert(locked_views(r@) =~= Seq::empty());
    if let Some(packages) = lockfile.list("package") {
        let ghost all = crate::document::items_view(packages@);
        for i in 0..packages.len()
            invariant
                all == crate::document::items_view(packages@),
                locked_views(r@) == registry_packages(all.take(i as int)),
        {
            assert(all.take(i + 1).drop_last() =~= all.take(i as int));
            let ghost before = locked_views(r@);
            if let Some(package) = &packages[i] {
                if let Some(dependency) = find_registry_package(package) {
                    r.push(dependency);
                    assert(locked_views(r@) =~= before.push(dependency@));
                }
            }
        }
        assert(all.take(all.len() as int) =~= all);
    }
    r
}

/// Reads a lockfile: the dependencies that come from a registry, or nothing where the
/// text is no TOML document.
pub fn parse_lockfile(text: &str) -> (r: Option<Vec<LockedDependency>>)
    ensures
        match r {
            Some(list) => crate::document::parsed_document(text@) matches Some(lockfile)
                && locked_views(list@) == locked_dependencies(lockfile),
            None => crate::document::parsed_document(text@) is None,
        },
{
    match parse_document(text) {
        Some(lockfile) => Some(find_locked(&lockfile)),
        None => None,
    }
}

/// The version at which `list` pins `name`: where there are several, the last.
pub open spec fn pinned_at(list: Seq<LockedView>, name: Seq<char>) -> Option<Seq<char>>
    decreases list.len(),
{
    if list.len() == 0 {
        None
    } else if list.last().name == name {
        Some(list.last().version)
    } else {
        pinned_at(list.drop_last(), name)
    }
}

/// Gives the version at which `list` pins `name`: where there are several, the last.
pub fn pinned_version(list: &Vec<LockedDependency>, name: &str) -> (r: Option<String>)
    ensures
        optional_text(r) == pinned_at(locked_views(list@), name@),
{
    let ghost all = locked_views(list@);
    let wanted = name.to_owned();
    let mut r: Option<String> = None;
    for i in 0..list.len()
        invariant
            all == locked_views(list@),
            wanted@ == name@,
            optional_text(r) == pinned_at(all.take(i as int), name@),
    {
        assert(all.take(i + 1).drop_last() =~= all.take(i as int));
        if list[i].name == wanted {
            r = Some(list[i].version.clone());
        }
    }
    assert(all.take(all.len() as int) =~= all);
    r
}

/// What became of a dependency: it was updated, it was added (no old version), or it was
/// removed (no new version).
#[derive(Debug, PartialEq, Eq)]
pub struct VersionChange {
    pub name: String,
    pub old_version: Option<String>,
    pub new_version: Option<String>,
}

/// What a [`VersionChange`] holds.
#[verifier::ext_equal]
pub struct ChangeView {
    pub name: Seq<char>,
    pub old_version: Option<Seq<char>>,
    pub new_version: Option<Seq<char>>,
}

/// What a text that may be missing holds.
pub open spec fn optional_text(text: Option<String>) -> Option<Seq<char>> {
    match text {
        Some(s) => Some(s@),
        None => None,
    }
}

impl View for VersionChange {
    type V = ChangeView;

    open spec fn view(&self) -> ChangeView {
        ChangeView {
            name: self.name@,
            old_version: optional_text(self.old_version),
            new_version: optional_text(self.new_version),
        }
    }
}

/// What a list of changes holds.
pub open spec fn change_views(list: Seq<VersionChange>) -> Seq<ChangeView> {
    list.map_values(|c: VersionChange| c@)
}

/// The names of dependencies.
pub open spec fn names_of(list: Seq<LockedView>) -> Seq<Seq<char>> {
    list.map_values(|d: LockedView| d.name)
}

/// The versions at which `list` pins `name` and `other` does not, in the order of `list`.
pub open spec fn only_here(
    list: Seq<LockedView>,
    other: Seq<LockedView>,
    name: Seq<char>,
) -> Seq<Seq<char>>
    decreases list.len(),
{
    if list.len() == 0 {
        Seq::empty()
    } else {
        let earlier = only_here(list.drop_last(), other, name);
        if list.last().name == name && !other.contains(list.last()) {
            earlier.push(list.last().version)
        } else {
            earlier
        }
    }
}

/// The value at `i`, where there is one.
pub open spec fn at<V>(list: Seq<V>, i: int) -> Option<V> {
    if 0 <= i < list.len() {
        Some(list[i])
    } else {
        None
    }
}

/// The versions that went and those that came, side by side.
pub open spec fn paired(
    name: Seq<char>,
    gone: Seq<Seq<char>>,
    come: Seq<Seq<char>>,
) -> Seq<ChangeView> {
    Seq::new(
        if gone.len() > come.len() {
            gone.len()
        } else {
            come.len()
        },
        |i: int| ChangeView { name, old_version: at(gone, i), new_version: at(come, i) },
    )
}

/// What became of the dependency `name`: a version that both lockfiles pin is no change;
/// of the others, the first that went is updated to the first that came, and so on.
pub open spec fn changes_of(
    old: Seq<LockedView>,
    new: Seq<LockedView>,
    name: Seq<char>,
) -> Seq<ChangeView> {
    paired(name, only_here(old, new, name), only_here(new, old, name))
}

/// What became of the dependencies `names`.
pub open spec fn changes_of_all(
    old: Seq<LockedView>,
    new: Seq<LockedView>,
    names: Seq<Seq<char>>,
) -> Seq<ChangeView>
    decreases names.len(),
{
    if names.len() == 0 {
        Seq::empty()
    } else {
        changes_of_all(old, new, names.drop_last()) + changes_of(old, new, names.last())
    }
}

/// `names` lists the dependencies of both lockfiles, each once, in order.
pub open spec fn are_all_names(
    old: Seq<LockedView>,
    new: Seq<LockedView>,
    names: Seq<Seq<char>>,
) -> bool {
    crate::names::is_sorted_set(names_of(old) + names_of(new), names)
}

/// `changes` is what changes from one lockfile to another, by name.
pub open spec fn are_changes(
    old: Seq<LockedView>,
    new: Seq<LockedView>,
    changes: Seq<ChangeView>,
) -> bool {
    exists|names: Seq<Seq<char>>| #[trigger]
        are_all_names(old, new, names) && changes == changes_of_all(old, new, names)
}

/// Tells whether `list` pins what `dependency` pins.
fn is_pinned(list: &Vec<LockedDependency>, dependency: &LockedDependency) -> (r: bool)
    ensures
        r == locked_views(list@).contains(dependency@),
{
    for i in 0..list.len()
        invariant
            forall|k: int| 0 <= k < i ==> locked_views(list@)[k] != dependency@,
    {
        if list[i].name == dependency.name && list[i].version == dependency.version {
            assert(locked_views(list@)[i as int] =~= dependency@);
            return true;
        }
        assert(locked_views(list@)[i as int] != dependency@);
    }
    false
}

/// Lists the versions at which `list` pins `name` and `other` does not.
fn find_only_here(
    list: &Vec<LockedDependency>,
    other: &Vec<LockedDependency>,
    name: &String,
) -> (r: Vec<String>)
    ensures
        texts(r@) == only_here(locked_views(list@), locked_views(other@), name@),
{
    let ghost all = locked_views(list@);
    let mut r: Vec<String> = Vec::new();
    assert(texts(r@) =~= Seq::empty());
    for i in 0..list.len()
        invariant
            all == locked_views(list@),
            texts(r@) == only_here(all.take(i as int), locked_views(other@), name@),
    {
        assert(all.take(i + 1).drop_last() =~= all.take(i as int));
        let ghost before = texts(r@);
        if list[i].name == *name && !is_pinned(other, &list[i]) {
            r.push(list[i].version.clone());
            assert(texts(r@) =~= before.push(list@[i as int].version@));
        }
    }
    assert(all.take(all.len() as int) =~= all);
    r
}

/// Copies the text at `i`, where there is one.
fn copy_at(list: &Vec<String>, i: usize) -> (r: Option<String>)
    ensures
        optional_text(r) == at(texts(list@), i as int),
{
    if i < list.len() {
        Some(list[i].clone())
    } else {
        None
    }
}

/// Puts the versions that went and those that came side by side at the end of `out`.
fn push_paired(
    out: &mut Vec<VersionChange>,
    name: &String,
    gone: &Vec<String>,
    come: &Vec<String>,
)
    ensures
        change_views(final(out)@) == change_views(old(out)@) + paired(
            name@,
            texts(gone@),
            texts(come@),
        ),
{
    let ghost before = change_views(out@);
    let ghost pairs = paired(name@, texts(gone@), texts(come@));
    let count: usize = if gone.len() > come.len() {
        gone.len()
    } else {
        come.len()
    };
    assert(before =~= before + pairs.take(0));
    for i in 0..count
        invariant
            pairs == paired(name@, texts(gone@), texts(come@)),
            count == pairs.len(),
            change_views(out@) == before + pairs.take(i as int),
    {
        let ghost so_far = change_views(out@);
        let change = VersionChange {
            name: name.clone(),
            old_version: copy_at(gone, i),
            new_version: copy_at(come, i),
        };
        assert(change@ =~= pairs[i as int]);
        out.push(change);
        assert(change_views(out@) =~= so_far.push(pairs[i as int]));
        assert(pairs.take(i + 1) =~= pairs.take(i as int).push(pairs[i as int]));
        assert(change_views(out@) =~= before + pairs.take(i + 1));
    }
    assert(pairs.take(count as int) =~= pairs);
}

/// Lists the names of dependencies.
fn list_names(list: &Vec<LockedDependency>) -> (r: Vec<String>)
    ensures
        texts(r@) == names_of(locked_views(list@)),
{
    let ghost all = names_of(locked_views(list@));
    let mut r: Vec<String> = Vec::new();
    for i in 0..list.len()
        invariant
            all == names_of(locked_views(list@)),
            texts(r@) == all.take(i as int),
    {
        let ghost before = texts(r@);
        r.push(list[i].name.clone());
        assert(texts(r@) =~= before.push(all[i as int]));
    }
    assert(all.take(all.len() as int) =~= all);
    r
}

/// Compares two lockfiles: which dependencies were updated, added or removed, by name.
pub fn lockfile_version_changes(
    old: &Vec<LockedDependency>,
    new: &Vec<LockedDependency>,
) -> (r: Vec<VersionChange>)
    ensures
        are_changes(locked_views(old@), locked_views(new@), change_views(r@)),
{
    let mut names = list_names(old);
    let mut more = list_names(new);
    let ghost first = names@;
    let ghost second = more@;
    names.append(&mut more);
    assert(texts(names@) =~= texts(first) + texts(second));
    let names = sort_and_dedup(names);
    let ghost all = texts(names@);
    let ghost a = locked_views(old@);
    let ghost b = locked_views(new@);
    let mut r: Vec<VersionChange> = Vec::new();
    assert(change_views(r@) =~= Seq::empty());
    for i in 0..names.len()
        invariant
            all == texts(names@),
            a == locked_views(old@),
            b == locked_views(new@),
            change_views(r@) == changes_of_all(a, b, all.take(i as int)),
    {
        assert(all.take(i + 1).drop_last() =~= all.take(i as int));
        let gone = find_only_here(old, new, &names[i]);
        let come = find_only_here(new, old, &names[i]);
        push_paired(&mut r, &names[i], &gone, &come);
    }
    assert(all.take(all.len() as int) =~= all);
    assert(are_all_names(a, b, all));
    r
}

/// What has to be scanned to tell what a change brings.
#[derive(Debug, Clone, Copy, PartialEq, Eq, Structural)]
pub enum ChangePlan {
    /// Nothing: a dependency that goes brings nothing.
    Nothing,
    /// The new version only.
    New,
    /// The old version and the new one.
    Both,
}

/// What has to be scanned to tell what a change brings.
pub open spec fn plan_of(change: ChangeView) -> ChangePlan {
    if change.new_version is None {
        ChangePlan::Nothing
    } else if change.old_version is None {
        ChangePlan::New
    } else {
        ChangePlan::Both
    }
}

/// Tells what has to be scanned to tell what a change brings.
pub fn plan_change(change: &VersionChange) -> (r: ChangePlan)
    ensures
        r == plan_of(change@),
{
    match &change.new_version {
        None => ChangePlan::Nothing,
        Some(_) => match &change.old_version {
            None => ChangePlan::New,
            Some(_) => ChangePlan::Both,
        },
    }
}

/// What a change in a lockfile brings, or why that could not be told.
#[derive(Debug)]
pub struct LockfileDiff {
    pub name: String,
    pub old_version: Option<String>,
    pub new_version: Option<String>,
    pub diff: Option<Diff>,
    pub error: Option<String>,
}

/// The report that stands for a crate where it was not there: it shows nothing.
pub open spec fn nothing(name: Seq<char>) -> ReportView {
    ReportView {
        name,
        version: Seq::empty(),
        files_scanned: 0,
        lines_scanned: 0,
        dependencies: Seq::empty(),
        signals: Seq::empty(),
    }
}

/// Gives the report that stands for the crate `name` where it was not there.
pub fn nothing_scanned(name: &str) -> (r: CrateReport)
    ensures
        r@ == nothing(name@),
{
    let r = CrateReport {
        name: name.to_owned(),
        version: String::new(),
        files_scanned: 0,
        lines_scanned: 0,
        dependencies: Vec::new(),
        signals: Vec::new(),
    };
    assert(r@ =~= nothing(name@));
    r
}

/// What came of scanning as a [`ChangePlan`] asks.
pub enum Scanned {
    Nothing,
    New(CrateReport),
    Both(CrateReport, CrateReport),
    /// A version could not be had or scanned, for this reason.
    Failed(String),
}

/// Tells what a change brings, given what came of scanning as its plan asks. A
/// dependency that was added is compared with nothing, so its whole surface is gained.
pub fn resolve_change(change: VersionChange, scanned: Scanned) -> (r: LockfileDiff)
    ensures
        r.name@ == change@.name,
        optional_text(r.old_version) == change@.old_version,
        optional_text(r.new_version) == change@.new_version,
        match scanned {
            Scanned::Nothing => r.diff is None && r.error is None,
            Scanned::New(new) => r.error is None && r.diff is Some && is_diff(
                nothing(change@.name),
                new@,
                r.diff->0@,
            ),
            Scanned::Both(old, new) => r.error is None && r.diff is Some && is_diff(
                old@,
                new@,
                r.diff->0@,
            ),
            Scanned::Failed(reason) => r.diff is None && optional_text(r.error) == Some(reason@),
        },
{
    let (diff, error) = match scanned {
        Scanned::Nothing => (None, None),
        Scanned::New(new) => (
            Some(diff_reports(&nothing_scanned(change.name.as_str()), &new)),
            None,
        ),
        Scanned::Both(old, new) => (Some(diff_reports(&old, &new)), None),
        Scanned::Failed(reason) => (None, Some(reason)),
    };
    LockfileDiff {
        name: change.name,
        old_version: change.old_version,
        new_version: change.new_version,
        diff,
        error,
    }
}

proof fn only_here_lists(
    list: Seq<LockedView>,
    other: Seq<LockedView>,
    name: Seq<char>,
    version: Seq<char>,
)
    ensures
        only_here(list, other, name).contains(version) == (list.contains(
            (LockedView { name, version }),
        ) && !other.contains((LockedView { name, version }))),
    decreases list.len(),
{
    let d = LockedView { name, version };
    if list.len() > 0 {
        let rest = list.drop_last();
        let last = list.last();
        only_here_lists(rest, other, name, version);
        assert(list =~= rest.push(last));
        crate::names::pushed_contains(rest, last, d);
        crate::names::pushed_contains(only_here(rest, other, name), last.version, version);
        if last.name == name && last.version == version {
            assert(last =~= d);
        }
    }
}

proof fn changes_of_all_lists(
    old: Seq<LockedView>,
    new: Seq<LockedView>,
    names: Seq<Seq<char>>,
    i: int,
) -> (k: int)
    requires
        0 <= i < changes_of_all(old, new, names).len(),
    ensures
        0 <= k < names.len(),
        changes_of(old, new, names[k]).contains(changes_of_all(old, new, names)[i]),
        changes_of_all(old, new, names)[i].name == names[k],
    decreases names.len(),
{
    let earlier = changes_of_all(old, new, names.drop_last());
    let last = changes_of(old, new, names.last());
    if i < earlier.len() {
        let k = changes_of_all_lists(old, new, names.drop_last(), i);
        assert(changes_of_all(old, new, names)[i] == earlier[i]);
        k
    } else {
        assert(changes_of_all(old, new, names)[i] == last[i - earlier.len()]);
        names.len() - 1
    }
}

proof fn changes_of_all_holds(
    old: Seq<LockedView>,
    new: Seq<LockedView>,
    names: Seq<Seq<char>>,
    k: int,
    change: ChangeView,
)
    requires
        0 <= k < names.len(),
        changes_of(old, new, names[k]).contains(change),
    ensures
        changes_of_all(old, new, names).contains(change),
    decreases names.len(),
{
    let earlier = changes_of_all(old, new, names.drop_last());
    let last = changes_of(old, new, names.last());
    let all = changes_of_all(old, new, names);
    if k < names.len() - 1 {
        changes_of_all_holds(old, new, names.drop_last(), k, change);
        let i = earlier.index_of(change);
        assert(all[i] == change);
    } else {
        let i = last.index_of(change);
        assert(all[earlier.len() + i] == change);
    }
}

/// Each change is one: the old version was pinned and is no more, the new version was not
/// pinned and is now, and there is one of them at least.
pub proof fn each_change_is_real(
    old: Seq<LockedView>,
    new: Seq<LockedView>,
    changes: Seq<ChangeView>,
    i: int,
)
    requires
        are_changes(old, new, changes),
        0 <= i < changes.len(),
    ensures
        changes[i].old_version is Some || changes[i].new_version is Some,
        changes[i].old_version matches Some(version) ==> old.contains(
            (LockedView { name: changes[i].name, version }),
        ) && !new.contains((LockedView { name: changes[i].name, version })),
        changes[i].new_version matches Some(version) ==> new.contains(
            (LockedView { name: changes[i].name, version }),
        ) && !old.contains((LockedView { name: changes[i].name, version })),
{
    let names = choose|names: Seq<Seq<char>>| #[trigger]
        are_all_names(old, new, names) && changes == changes_of_all(old, new, names);
    let k = changes_of_all_lists(old, new, names, i);
    let name = names[k];
    let gone = only_here(old, new, name);
    let come = only_here(new, old, name);
    let pairs = changes_of(old, new, name);
    let j = pairs.index_of(changes[i]);
    assert(pairs[j] == changes[i]);
    if j < gone.len() {
        assert(gone.contains(gone[j]));
        only_here_lists(old, new, name, gone[j]);
    }
    if j < come.len() {
        assert(come.contains(come[j]));
        only_here_lists(new, old, name, come[j]);
    }
}

/// No change is missed: a version that one lockfile pins and the other does not is part
/// of a change.
pub proof fn no_change_is_missed(
    old: Seq<LockedView>,
    new: Seq<LockedView>,
    changes: Seq<ChangeView>,
    dependency: LockedView,
)
    requires
        are_changes(old, new, changes),
    ensures
        old.contains(dependency) && !new.contains(dependency) ==> exists|i: int|
            0 <= i < changes.len() && (#[trigger] changes[i]).name == dependency.name
                && changes[i].old_version == Some(dependency.version),
        new.contains(dependency) && !old.contains(dependency) ==> exists|i: int|
            0 <= i < changes.len() && (#[trigger] changes[i]).name == dependency.name
                && changes[i].new_version == Some(dependency.version),
{
    let names = choose|names: Seq<Seq<char>>| #[trigger]
        are_all_names(old, new, names) && changes == changes_of_all(old, new, names);
    let name = dependency.name;
    let version = dependency.version;
    let gone = only_here(old, new, name);
    let come = only_here(new, old, name);
    let pairs = changes_of(old, new, name);
    let both = names_of(old) + names_of(new);
    assert((LockedView { name, version }) =~= dependency);
    only_here_lists(old, new, name, version);
    only_here_lists(new, old, name, version);
    if old.contains(dependency) && !new.contains(dependency) {
        let n = old.index_of(dependency);
        assert(both[n] == name);
        assert(both.contains(name));
        assert(names.contains(name));
        let k = names.index_of(name);
        let j = gone.index_of(version);
        assert(pairs[j].old_version == Some(version));
        changes_of_all_holds(old, new, names, k, pairs[j]);
        let i = changes.index_of(pairs[j]);
        assert(changes[i].name == name);
    }
    if new.contains(dependency) && !old.contains(dependency) {
        let n = new.index_of(dependency);
        assert(both[old.len() + n] == name);
        assert(both.contains(name));
        assert(names.contains(name));
        let k = names.index_of(name);
        let j = come.index_of(version);
        assert(pairs[j].new_version == Some(version));
        changes_of_all_holds(old, new, names, k, pairs[j]);
        let i = changes.index_of(pairs[j]);
        assert(changes[i].name == name);
    }
}

/// Where two lockfiles pin the same, nothing changes.
pub proof fn same_pins_have_no_changes(
    old: Seq<LockedView>,
    new: Seq<LockedView>,
    changes: Seq<ChangeView>,
)
    requires
        are_changes(old, new, changes),
        forall|d: LockedView| #[trigger] old.contains(d) == new.contains(d),
    ensures
        changes.len() == 0,
{
    if changes.len() > 0 {
        each_change_is_real(old, new, changes, 0);
        let change = changes[0];
        if let Some(version) = change.old_version {
            assert(old.contains((LockedView { name: change.name, version })));
        }
        if let Some(version) = change.new_version {
            assert(new.contains((LockedView { name: change.name, version })));
        }
    }
}

proof fn changes_are_in_order(
    old: Seq<LockedView>,
    new: Seq<LockedView>,
    names: Seq<Seq<char>>,
    i: int,
    j: int,
)
    requires
        crate::names::increasing(names),
        0 <= i < j < changes_of_all(old, new, names).len(),
    ensures
        crate::text::text_le(
            changes_of_all(old, new, names)[i].name,
            changes_of_all(old, new, names)[j].name,
        ),
    decreases names.len(),
{
    let rest = names.drop_last();
    let earlier = changes_of_all(old, new, rest);
    let last = changes_of(old, new, names.last());
    let all = changes_of_all(old, new, names);
    assert forall|k: int, l: int| 0 <= k < l < rest.len() implies crate::text::text_le(
        #[trigger] rest[k],
        #[trigger] rest[l],
    ) && rest[k] != rest[l] by {
        assert(crate::text::text_le(names[k], names[l]) && names[k] != names[l]);
    }
    if j < earlier.len() {
        changes_are_in_order(old, new, rest, i, j);
        assert(all[i] == earlier[i] && all[j] == earlier[j]);
    } else {
        assert(all[j] == last[j - earlier.len()]);
        if i < earlier.len() {
            let k = changes_of_all_lists(old, new, rest, i);
            assert(all[i] == earlier[i]);
            assert(crate::text::text_le(names[k], names[names.len() - 1]));
        } else {
            assert(all[i] == last[i - earlier.len()]);
            crate::text::text_le_total(names.last(), names.last());
        }
    }
}

/// The changes are listed by name.
pub proof fn changes_are_sorted_by_name(
    old: Seq<LockedView>,
    new: Seq<LockedView>,
    changes: Seq<ChangeView>,
    i: int,
    j: int,
)
    requires
        are_changes(old, new, changes),
        0 <= i < j < changes.len(),
    ensures
        crate::text::text_le(changes[i].name, changes[j].name),
{
    let names = choose|names: Seq<Seq<char>>| #[trigger]
        are_all_names(old, new, names) && changes == changes_of_all(old, new, names);
    changes_are_in_order(old, new, names, i, j);
}

/// A change in the other direction.
pub open spec fn reversed(change: ChangeView) -> ChangeView {
    ChangeView {
        name: change.name,
        old_version: change.new_version,
        new_version: change.old_version,
    }
}

proof fn reversed_changes_of_all(
    old: Seq<LockedView>,
    new: Seq<LockedView>,
    names: Seq<Seq<char>>,
)
    ensures
        changes_of_all(new, old, names) == changes_of_all(old, new, names).map_values(
            |c: ChangeView| reversed(c),
        ),
    decreases names.len(),
{
    let r = |c: ChangeView| reversed(c);
    if names.len() > 0 {
        reversed_changes_of_all(old, new, names.drop_last());
        assert(changes_of(new, old, names.last()) =~= changes_of(
            old,
            new,
            names.last(),
        ).map_values(r));
    }
    assert(changes_of_all(new, old, names) =~= changes_of_all(old, new, names).map_values(r));
}

/// Going back from the new lockfile to the old one reverses each change.
pub proof fn going_back_reverses_changes(
    old: Seq<LockedView>,
    new: Seq<LockedView>,
    there: Seq<ChangeView>,
    back: Seq<ChangeView>,
)
    requires
        are_changes(old, new, there),
        are_changes(new, old, back),
    ensures
        back == there.map_values(|c: ChangeView| reversed(c)),
{
    let a = choose|names: Seq<Seq<char>>| #[trigger]
        are_all_names(old, new, names) && there == changes_of_all(old, new, names);
    let b = choose|names: Seq<Seq<char>>| #[trigger]
        are_all_names(new, old, names) && back == changes_of_all(new, old, names);
    let x = names_of(old) + names_of(new);
    let y = names_of(new) + names_of(old);
    assert forall|n: Seq<char>| #[trigger] a.contains(n) == b.contains(n) by {
        assert(x.contains(n) == y.contains(n)) by {
            if x.contains(n) {
                let i = x.index_of(n);
                if i < old.len() {
                    assert(y[new.len() + i] == n);
                } else {
                    assert(y[i - old.len()] == n);
                }
            }
            if y.contains(n) {
                let i = y.index_of(n);
                if i < new.len() {
                    assert(x[old.len() + i] == n);
                } else {
                    assert(x[i - new.len()] == n);
                }
            }
        }
    }
    crate::names::sorted_set_is_unique(a, b);
    reversed_changes_of_all(old, new, a);
}

/// Two lockfiles determine what changes from one to the other.
pub proof fn changes_are_determined(
    old: Seq<LockedView>,
    new: Seq<LockedView>,
    a: Seq<ChangeView>,
    b: Seq<ChangeView>,
)
    requires
        are_changes(old, new, a),
        are_changes(old, new, b),
    ensures
        a == b,
{
    let x = choose|names: Seq<Seq<char>>| #[trigger]
        are_all_names(old, new, names) && a == changes_of_all(old, new, names);
    let y = choose|names: Seq<Seq<char>>| #[trigger]
        are_all_names(old, new, names) && b == changes_of_all(old, new, names);
    crate::names::sorted_set_is_unique(x, y);
}

/// A lockfile gives a dependency exactly where one of its packages is that dependency and
/// comes from a registry: what comes from a path or a repository is left out.
pub proof fn only_registry_packages_are_listed(
    packages: Seq<Option<FieldsView>>,
    dependency: LockedView,
)
    ensures
        registry_packages(packages).contains(dependency) <==> exists|i: int|
            0 <= i < packages.len() && (#[trigger] packages[i]) is Some && registry_package(
                packages[i]->0,
            ) == Some(dependency),
    decreases packages.len(),
{
    if packages.len() > 0 {
        let rest = packages.drop_last();
        let last = packages.last();
        let earlier = registry_packages(rest);
        only_registry_packages_are_listed(rest, dependency);
        if let Some(package) = last {
            if let Some(d) = registry_package(package) {
                crate::names::pushed_contains(earlier, d, dependency);
            }
        }
        if earlier.contains(dependency) {
            let i = choose|i: int|
                0 <= i < rest.len() && (#[trigger] rest[i]) is Some && registry_package(rest[i]->0)
                    == Some(dependency);
            assert(packages[i] == rest[i]);
        }
        if registry_packages(packages).contains(dependency) && !earlier.contains(dependency) {
            assert(packages[packages.len() - 1] == last);
        }
        if exists|i: int|
            0 <= i < packages.len() && (#[trigger] packages[i]) is Some && registry_package(
                packages[i]->0,
            ) == Some(dependency) {
            let i = choose|i: int|
                0 <= i < packages.len() && (#[trigger] packages[i]) is Some && registry_package(
                    packages[i]->0,
                ) == Some(dependency);
            if i < rest.len() {
                assert(rest[i] == packages[i]);
            }
        }
    }
}

/// Dependencies and changes are seen with all that they hold.
pub proof fn pins_are_seen_whole(
    dependency: LockedDependency,
    change: VersionChange,
    list: Seq<LockedDependency>,
    changes: Seq<VersionChange>,
    text: Option<String>,
)
    ensures
        dependency@.name == dependency.name@,
        dependency@.version == dependency.version@,
        change@.name == change.name@,
        change@.old_version == optional_text(change.old_version),
        change@.new_version == optional_text(change.new_version),
        match text {
            Some(s) => optional_text(text) == Some(s@),
            None => optional_text(text) is None,
        },
        locked_views(list).len() == list.len(),
        forall|i: int| 0 <= i < list.len() ==> #[trigger] locked_views(list)[i] == list[i]@,
        change_views(changes).len() == changes.len(),
        forall|i: int| 0 <= i < changes.len() ==> #[trigger] change_views(changes)[i] == changes[i]@,
{
}

/// A package is a dependency exactly where its source starts with `registry+` and it has a
/// name and a version, and it is then that name at that version.
pub proof fn registry_package_is_told_by_its_source(package: FieldsView, dependency: LockedView)
    ensures
        registry_package(package) == Some(dependency) <==> {
            &&& crate::document::text_at(package, "source"@) is Some
            &&& "registry+"@.is_prefix_of(crate::document::text_at(package, "source"@)->0)
            &&& crate::document::text_at(package, "name"@) == Some(dependency.name)
            &&& crate::document::text_at(package, "version"@) == Some(dependency.version)
        },
        registry_package(package) is None <==> {
            ||| crate::document::text_at(package, "source"@) is None
            ||| !"registry+"@.is_prefix_of(crate::document::text_at(package, "source"@)->0)
            ||| crate::document::text_at(package, "name"@) is None
            ||| crate::document::text_at(package, "version"@) is None
        },
{
}

/// The other keys of a package do not count: two packages with the same source, name and
/// version are the same dependency, or none.
pub proof fn other_keys_do_not_count(a: FieldsView, b: FieldsView)
    requires
        crate::document::text_at(a, "source"@) == crate::document::text_at(b, "source"@),
        crate::document::text_at(a, "name"@) == crate::document::text_at(b, "name"@),
        crate::document::text_at(a, "version"@) == crate::document::text_at(b, "version"@),
    ensures
        registry_package(a) == registry_package(b),
{
}

/// A lockfile is read package by package: two lists of packages put together give the
/// dependencies of the first followed by those of the second.
pub proof fn packages_are_read_one_by_one(
    a: Seq<Option<FieldsView>>,
    b: Seq<Option<FieldsView>>,
    package: FieldsView,
)
    ensures
        registry_packages(a + b) == registry_packages(a) + registry_packages(b),
        match registry_package(package) {
            Some(dependency) => registry_packages(seq![Some(package)]) == seq![dependency],
            None => registry_packages(seq![Some(package)]).len() == 0,
        },
        registry_packages(seq![None::<FieldsView>]).len() == 0,
        registry_packages(Seq::empty()).len() == 0,
    decreases b.len(),
{
    if b.len() == 0 {
        assert(a + b =~= a);
        assert(registry_packages(a) =~= registry_packages(a) + registry_packages(b));
    } else {
        packages_are_read_one_by_one(a, b.drop_last(), package);
        assert((a + b).drop_last() =~= a + b.drop_last());
        assert((a + b).last() == b.last());
        assert(registry_packages(a + b) =~= registry_packages(a) + registry_packages(b));
    }
    let one = seq![Some(package)];
    let none = seq![None::<FieldsView>];
    assert(one.drop_last() =~= Seq::empty() && one.last() == Some(package));
    assert(none.drop_last() =~= Seq::empty() && none.last() is None);
    assert(registry_packages(one.drop_last()) =~= Seq::empty());
    assert(registry_packages(none.drop_last()) =~= Seq::empty());
    if let Some(dependency) = registry_package(package) {
        assert(registry_packages(one) =~= seq![dependency]);
    }
}

/// The dependencies of a lockfile are those among its list of packages.
pub proof fn dependencies_are_among_packages(lockfile: DocumentView)
    ensures
        match crate::document::list_at(lockfile, "package"@) {
            Some(packages) => locked_dependencies(lockfile) == registry_packages(packages),
            None => locked_dependencies(lockfile).len() == 0,
        },
{
}

/// A name is pinned at the version that stands last under it, and not pinned where it is
/// not listed.
pub proof fn last_pin_counts(list: Seq<LockedView>, name: Seq<char>, version: Seq<char>)
    ensures
        pinned_at(list, name) == Some(version) <==> exists|i: int|
            0 <= i < list.len() && (#[trigger] list[i]).name == name && list[i].version == version
                && forall|j: int| i < j < list.len() ==> (#[trigger] list[j]).name != name,
        pinned_at(list, name) is None <==> forall|i: int|
            0 <= i < list.len() ==> (#[trigger] list[i]).name != name,
    decreases list.len(),
{
    if list.len() > 0 {
        let rest = list.drop_last();
        let n = list.len() - 1;
        last_pin_counts(rest, name, version);
        if list[n].name != name {
            assert(forall|i: int| 0 <= i < n ==> #[trigger] list[i] == rest[i]);
            if pinned_at(rest, name) == Some(version) {
                let i = choose|i: int|
                    0 <= i < rest.len() && (#[trigger] rest[i]).name == name && rest[i].version
                        == version && forall|j: int|
                        i < j < rest.len() ==> (#[trigger] rest[j]).name != name;
                assert(list[i].name == name);
                assert forall|j: int| i < j < list.len() implies (#[trigger] list[j]).name
                    != name by {
                    if j < n {
                        assert(rest[j].name != name);
                    }
                }
            }
            if exists|i: int|
                0 <= i < list.len() && (#[trigger] list[i]).name == name && list[i].version
                    == version && forall|j: int|
                    i < j < list.len() ==> (#[trigger] list[j]).name != name {
                let i = choose|i: int|
                    0 <= i < list.len() && (#[trigger] list[i]).name == name && list[i].version
                        == version && forall|j: int|
                        i < j < list.len() ==> (#[trigger] list[j]).name != name;
                assert(rest[i] == list[i]);
                assert forall|j: int| i < j < rest.len() implies (#[trigger] rest[j]).name
                    != name by {
                    assert(list[j].name != name);
                }
            }
            if pinned_at(rest, name) is None {
                assert forall|i: int| 0 <= i < list.len() implies (#[trigger] list[i]).name
                    != name by {
                    if i < n {
                        assert(rest[i].name != name);
                    }
                }
            }
            if forall|i: int| 0 <= i < list.len() ==> (#[trigger] list[i]).name != name {
                assert forall|i: int| 0 <= i < rest.len() implies (#[trigger] rest[i]).name
                    != name by {
                    assert(list[i].name != name);
                }
            }
        }
    }
}

/// The versions that one list pins and another does not, in the order of the list.
proof fn only_here_filters(list: Seq<LockedView>, other: Seq<LockedView>, name: Seq<char>)
    ensures
        only_here(list, other, name) == list.filter(
            |d: LockedView| d.name == name && !other.contains(d),
        ).map_values(|d: LockedView| d.version),
    decreases list.len(),
{
    let p = |d: LockedView| d.name == name && !other.contains(d);
    let f = |d: LockedView| d.version;
    reveal(Seq::filter);
    if list.len() > 0 {
        only_here_filters(list.drop_last(), other, name);
    }
    assert(only_here(list, other, name) =~= list.filter(p).map_values(f));
}

proof fn changes_of_all_by_name(
    old: Seq<LockedView>,
    new: Seq<LockedView>,
    names: Seq<Seq<char>>,
    name: Seq<char>,
)
    requires
        crate::names::increasing(names),
    ensures
        changes_of_all(old, new, names).filter(|c: ChangeView| c.name == name) == (
        if names.contains(name) {
            changes_of(old, new, name)
        } else {
            Seq::empty()
        }),
    decreases names.len(),
{
    let p = |c: ChangeView| c.name == name;
    reveal(Seq::filter);
    if names.len() > 0 {
        let rest = names.drop_last();
        let last = names.last();
        let earlier = changes_of_all(old, new, rest);
        let own = changes_of(old, new, last);
        assert forall|k: int, l: int| 0 <= k < l < rest.len() implies crate::text::text_le(
            #[trigger] rest[k],
            #[trigger] rest[l],
        ) && rest[k] != rest[l] by {
            assert(crate::text::text_le(names[k], names[l]) && names[k] != names[l]);
        }
        changes_of_all_by_name(old, new, rest, name);
        Seq::filter_distributes_over_add(earlier, own, p);
        assert(names =~= rest.push(last));
        crate::names::pushed_contains(rest, last, name);
        if last == name {
            if rest.contains(name) {
                let k = rest.index_of(name);
                assert(names[k] != names[names.len() - 1]);
            }
            all_pass(own, p);
        } else {
            none_of_them(own, p);
        }
        assert(changes_of_all(old, new, names).filter(p) =~= (if names.contains(name) {
            changes_of(old, new, name)
        } else {
            Seq::empty()
        }));
    }
}

proof fn all_pass(s: Seq<ChangeView>, p: spec_fn(ChangeView) -> bool)
    requires
        forall|i: int| 0 <= i < s.len() ==> p(#[trigger] s[i]),
    ensures
        s.filter(p) == s,
    decreases s.len(),
{
    reveal(Seq::filter);
    if s.len() > 0 {
        all_pass(s.drop_last(), p);
        assert(p(s[s.len() - 1]));
        assert(s =~= s.drop_last().push(s.last()));
    }
}

proof fn none_of_them(s: Seq<ChangeView>, p: spec_fn(ChangeView) -> bool)
    requires
        forall|i: int| 0 <= i < s.len() ==> !p(#[trigger] s[i]),
    ensures
        s.filter(p).len() == 0,
    decreases s.len(),
{
    reveal(Seq::filter);
    if s.len() > 0 {
        none_of_them(s.drop_last(), p);
        assert(!p(s[s.len() - 1]));
    }
}

/// The changes of a dependency put the versions that went beside those that came, in the
/// order of the lockfiles: where as many went as came each is an update, and what is left
/// over was removed or added. A version that both lockfiles pin is no part of a change.
pub proof fn versions_are_paired_in_order(
    old: Seq<LockedView>,
    new: Seq<LockedView>,
    changes: Seq<ChangeView>,
    name: Seq<char>,
)
    requires
        are_changes(old, new, changes),
    ensures
        ({
            let gone = old.filter(|d: LockedView| d.name == name && !new.contains(d));
            let come = new.filter(|d: LockedView| d.name == name && !old.contains(d));
            let mine = changes.filter(|c: ChangeView| c.name == name);
            &&& mine.len() == if gone.len() > come.len() {
                gone.len()
            } else {
                come.len()
            }
            &&& forall|i: int|
                0 <= i < mine.len() ==> (#[trigger] mine[i]).old_version == (if i < gone.len() {
                    Some(gone[i].version)
                } else {
                    None
                })
            &&& forall|i: int|
                0 <= i < mine.len() ==> (#[trigger] mine[i]).new_version == (if i < come.len() {
                    Some(come[i].version)
                } else {
                    None
                })
        }),
{
    let names = choose|names: Seq<Seq<char>>| #[trigger]
        are_all_names(old, new, names) && changes == changes_of_all(old, new, names);
    changes_of_all_by_name(old, new, names, name);
    only_here_filters(old, new, name);
    only_here_filters(new, old, name);
    let gone = only_here(old, new, name);
    let come = only_here(new, old, name);
    let both = names_of(old) + names_of(new);
    if !names.contains(name) {
        assert(!both.contains(name));
        if gone.len() > 0 {
            assert(gone.contains(gone[0]));
            only_here_lists(old, new, name, gone[0]);
            let k = old.index_of((LockedView { name, version: gone[0] }));
            assert(both[k] == name);
        }
        if come.len() > 0 {
            assert(come.contains(come[0]));
            only_here_lists(new, old, name, come[0]);
            let k = new.index_of((LockedView { name, version: come[0] }));
            assert(both[old.len() + k] == name);
        }
    }
}

/// Nothing is scanned for what goes, the new version for what comes, and both for an
/// update; and what was not there shows nothing.
pub proof fn plans_follow_the_versions(change: ChangeView, name: Seq<char>)
    ensures
        plan_of(change) == ChangePlan::Nothing <==> change.new_version is None,
        plan_of(change) == ChangePlan::New <==> change.new_version is Some
            && change.old_version is None,
        nothing(name).name == name,
        nothing(name).version.len() == 0,
        nothing(name).files_scanned == 0 && nothing(name).lines_scanned == 0,
        nothing(name).signals.len() == 0 && nothing(name).dependencies.len() == 0,
{
}

} // verus!
