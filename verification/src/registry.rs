//! Finding the source of a crate in cargo's registry cache, and having cargo put it
//! there first.
//!
//! Looking into the cache and running cargo is up to the caller; what to do next, and
//! what to say when it fails, is told here.
use vstd::prelude::*;

verus! {

/// The name of the directory that holds a version of a crate.
pub open spec fn dir_name(name: Seq<char>, version: Seq<char>) -> Seq<char> {
    name + "-"@ + version
}

/// Gives the name of the directory that holds a version of a crate.
pub fn cache_dir_name(name: &str, version: &str) -> (r: String)
    ensures
        r@ == dir_name(name@, version@),
{
    let mut r = name.to_owned();
    r.append("-");
    r.append(version);
    r
}

/// A directory of the cache, as far as it matters for a version of a crate.
pub struct CacheEntry {
    /// It is a directory and no plain file.
    pub is_dir: bool,
    /// A directory of the name that is looked for lies in it.
    pub holds_crate: bool,
}

/// The first directory of the cache that holds the version that is looked for.
pub open spec fn is_first_hit(entries: Seq<CacheEntry>, hit: Option<usize>) -> bool {
    match hit {
        Some(i) => {
            &&& i < entries.len()
            &&& entries[i as int].is_dir && entries[i as int].holds_crate
            &&& forall|k: int|
                0 <= k < i ==> !((#[trigger] entries[k]).is_dir && entries[k].holds_crate)
        },
        None => forall|k: int|
            0 <= k < entries.len() ==> !((#[trigger] entries[k]).is_dir && entries[k].holds_crate),
    }
}

/// Finds the first directory of the cache that holds the version that is looked for.
pub fn locate_cached(entries: &Vec<CacheEntry>) -> (r: Option<usize>)
    ensures
        is_first_hit(entries@, r),
{
    for i in 0..entries.len()
        invariant
            forall|k: int|
                0 <= k < i ==> !((#[trigger] entries@[k]).is_dir && entries@[k].holds_crate),
    {
        if entries[i].is_dir && entries[i].holds_crate {
            return Some(i);
        }
    }
    None
}

/// What to do after a look into the cache.
pub enum Located<P> {
    /// The source is here.
    Found(P),
    /// Fetch it, and look again.
    Fetch,
    /// It cannot be found, with what to say of it.
    Missing(String),
}

/// What is said where the source is not in the cache though it was fetched.
pub open spec fn still_missing(name: Seq<char>, version: Seq<char>) -> Seq<char> {
    "still couldn't find "@ + dir_name(name, version)
        + " in the registry cache after fetching"@
}

/// Tells what to do after a look into the cache, given whether the source was fetched
/// before and where it was found: use it where it is there, fetch it once where it is
/// not, and give up after that.
pub fn locate_or_fetch<P>(name: &str, version: &str, fetched: bool, found: Option<P>) -> (r:
    Located<P>)
    ensures
        match found {
            Some(place) => r == Located::Found(place),
            None => if fetched {
                r matches Located::Missing(message) && message@ == still_missing(name@, version@)
            } else {
                r == Located::<P>::Fetch
            },
        },
{
    match found {
        Some(place) => Located::Found(place),
        None => if fetched {
            let mut message = "still couldn't find ".to_owned();
            message.append(cache_dir_name(name, version).as_str());
            message.append(" in the registry cache after fetching");
            Located::Missing(message)
        } else {
            Located::Fetch
        },
    }
}

/// The steps by which cargo fetches a crate, in a scratch project.
#[derive(Debug, Clone, Copy, PartialEq, Eq, Structural)]
pub enum FetchStep {
    /// Make the project.
    Init,
    /// Name the crate, at exactly the version, among its dependencies.
    Add,
    /// Fetch its dependencies.
    Fetch,
}

/// The dependency that names a crate at exactly a version.
pub open spec fn exact_dependency(name: Seq<char>, version: Seq<char>) -> Seq<char> {
    name + "@="@ + version
}

/// Names a crate at exactly a version.
fn name_exactly(name: &str, version: &str) -> (r: String)
    ensures
        r@ == exact_dependency(name@, version@),
{
    let mut r = name.to_owned();
    r.append("@=");
    r.append(version);
    r
}

/// The arguments to run cargo with.
pub open spec fn arguments(name: Seq<char>, version: Seq<char>, step: FetchStep) -> Seq<Seq<char>> {
    match step {
        FetchStep::Init => seq!["init"@, "--name"@, "capscan_probe"@, "--quiet"@],
        FetchStep::Add => seq!["add"@, exact_dependency(name, version), "--quiet"@],
        FetchStep::Fetch => seq!["fetch"@, "--quiet"@],
    }
}

/// Gives the arguments to run cargo with.
pub fn fetch_arguments(name: &str, version: &str, step: FetchStep) -> (r: Vec<String>)
    ensures
        crate::text::texts(r@) == arguments(name@, version@, step),
{
    let mut r: Vec<String> = Vec::new();
    match step {
        FetchStep::Init => {
            r.push("init".to_owned());
            r.push("--name".to_owned());
            r.push("capscan_probe".to_owned());
        },
        FetchStep::Add => {
            r.push("add".to_owned());
            r.push(name_exactly(name, version));
        },
        FetchStep::Fetch => {
            r.push("fetch".to_owned());
        },
    }
    r.push("--quiet".to_owned());
    assert(crate::text::texts(r@) =~= arguments(name@, version@, step));
    r
}

/// What to do after a step.
pub enum AfterStep {
    Run(FetchStep),
    Done,
    /// Give up, with what to say of it.
    Failed(String),
}

/// What is said where cargo fails at a step.
pub open spec fn failure(name: Seq<char>, version: Seq<char>, step: FetchStep) -> Seq<char> {
    match step {
        FetchStep::Init => "`cargo init` failed while preparing a scratch project to fetch "@
            + dir_name(name, version),
        FetchStep::Add => "`cargo add "@ + exact_dependency(name, version)
            + "` failed -- does that name/version exist on crates.io?"@,
        FetchStep::Fetch => "`cargo fetch` failed for "@ + dir_name(name, version),
    }
}

/// The step that follows.
pub open spec fn following(step: FetchStep) -> Option<FetchStep> {
    match step {
        FetchStep::Init => Some(FetchStep::Add),
        FetchStep::Add => Some(FetchStep::Fetch),
        FetchStep::Fetch => None,
    }
}

/// Tells what to do after a step, given whether cargo succeeded: the next step, until the
/// last, or to give up.
pub fn fetch_via_cargo(name: &str, version: &str, step: FetchStep, success: bool) -> (r: AfterStep)
    ensures
        if success {
            r == match following(step) {
                Some(next) => AfterStep::Run(next),
                None => AfterStep::Done,
            }
        } else {
            r matches AfterStep::Failed(message) && message@ == failure(name@, version@, step)
        },
{
    if success {
        match step {
            FetchStep::Init => AfterStep::Run(FetchStep::Add),
            FetchStep::Add => AfterStep::Run(FetchStep::Fetch),
            FetchStep::Fetch => AfterStep::Done,
        }
    } else {
        let mut message = String::new();
        match step {
            FetchStep::Init => {
                message.append("`cargo init` failed while preparing a scratch project to fetch ");
                message.append(cache_dir_name(name, version).as_str());
            },
            FetchStep::Add => {
                message.append("`cargo add ");
                message.append(name_exactly(name, version).as_str());
                message.append("` failed -- does that name/version exist on crates.io?");
            },
            FetchStep::Fetch => {
                message.append("`cargo fetch` failed for ");
                message.append(cache_dir_name(name, version).as_str());
            },
        }
        assert(message@ =~= failure(name@, version@, step));
        AfterStep::Failed(message)
    }
}

/// The steps that remain, this one included.
pub open spec fn steps_left(step: FetchStep) -> nat {
    match step {
        FetchStep::Init => 3,
        FetchStep::Add => 2,
        FetchStep::Fetch => 1,
    }
}

/// Fetching comes to an end: each step that follows leaves one step less.
pub proof fn fetching_ends(step: FetchStep)
    ensures
        match following(step) {
            Some(next) => steps_left(next) + 1 == steps_left(step),
            None => steps_left(step) == 1,
        },
{
}

/// Where a crate lies in the cache, how it is asked of cargo, and what is said where that
/// fails is told by its name and its version.
pub proof fn crates_are_named_by_name_and_version(name: Seq<char>, version: Seq<char>)
    ensures
        dir_name(name, version) == name + "-"@ + version,
        still_missing(name, version) == "still couldn't find "@ + (name + "-"@ + version)
            + " in the registry cache after fetching"@,
        arguments(name, version, FetchStep::Init) == seq![
            "init"@,
            "--name"@,
            "capscan_probe"@,
            "--quiet"@,
        ],
        arguments(name, version, FetchStep::Add) == seq![
            "add"@,
            name + "@="@ + version,
            "--quiet"@,
        ],
        arguments(name, version, FetchStep::Fetch) == seq!["fetch"@, "--quiet"@],
        failure(name, version, FetchStep::Init)
            == "`cargo init` failed while preparing a scratch project to fetch "@ + (name + "-"@
            + version),
        failure(name, version, FetchStep::Add) == "`cargo add "@ + (name + "@="@ + version)
            + "` failed -- does that name/version exist on crates.io?"@,
        failure(name, version, FetchStep::Fetch) == "`cargo fetch` failed for "@ + (name + "-"@
            + version),
{
}

/// The steps follow each other: a project is made, then the crate is added to it, then it
/// is fetched, and that is all.
pub proof fn steps_follow_each_other(step: FetchStep)
    ensures
        following(FetchStep::Init) == Some(FetchStep::Add),
        following(FetchStep::Add) == Some(FetchStep::Fetch),
        following(FetchStep::Fetch) is None,
        steps_left(step) <= 3,
{
}

/// A hit is a directory that holds the crate, none before it is one, and there is a hit
/// wherever one is.
pub proof fn first_hit_is_taken(entries: Seq<CacheEntry>, hit: Option<usize>, k: int)
    requires
        is_first_hit(entries, hit),
        0 <= k < entries.len(),
    ensures
        entries[k].is_dir && entries[k].holds_crate ==> hit is Some && hit->0 <= k,
        hit is Some ==> hit->0 < entries.len() && entries[hit->0 as int].is_dir
            && entries[hit->0 as int].holds_crate,
{
    if hit is Some && hit->0 > k {
        assert(!(entries[k].is_dir && entries[k].holds_crate));
    }
}

} // verus!
