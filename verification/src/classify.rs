//! Which capability a part of a Rust file shows.
//!
//! A call is classified by its path as it is written: without compiling the crate
//! there are no resolved names. A call through an alias goes unseen, and a type of
//! the crate's own that is named like a recognised one is taken for it. The goal is
//! signal, not completeness.
use crate::signal::{signal_views, Signal, SignalKind, SignalView};
use crate::syntax::{node_views, paths, Node, NodeView};
use crate::text::{chars_of, contains, ends_with, is_same, join, starts_with, texts, to_decimal};
use vstd::prelude::*;

verus! {

/// A path as it is written, without its generic arguments.
pub open spec fn path_text(path: Seq<Seq<char>>) -> Seq<char> {
    crate::text::joined(path, "::"@)
}

/// Writes a path, given the names that make it up.
pub fn path_str(path: &Vec<String>) -> (r: String)
    ensures
        r@ == path_text(texts(path@)),
{
    join(path, "::")
}

/// A call that starts a process.
pub open spec fn spawns_process(path: Seq<char>) -> bool {
    "Command::new"@.is_suffix_of(path)
}

/// A path in which the type of a socket is named.
pub open spec fn names_socket(path: Seq<char>) -> bool {
    ||| crate::text::contains_text(path, "TcpStream"@)
    ||| crate::text::contains_text(path, "TcpListener"@)
    ||| crate::text::contains_text(path, "UdpSocket"@)
    ||| crate::text::contains_text(path, "UnixStream"@)
}

/// A path that starts at a common HTTP crate.
pub open spec fn starts_at_http_crate(path: Seq<char>) -> bool {
    ||| "reqwest::"@.is_prefix_of(path)
    ||| "hyper::"@.is_prefix_of(path)
    ||| "ureq::"@.is_prefix_of(path)
}

/// A call that opens a socket or goes through a common HTTP crate.
pub open spec fn accesses_network(path: Seq<char>) -> bool {
    names_socket(path) || starts_at_http_crate(path)
}

/// A call that changes the file system.
pub open spec fn writes_files(path: Seq<char>) -> bool {
    ||| "fs::write"@.is_suffix_of(path)
    ||| "File::create"@.is_suffix_of(path)
    ||| "remove_file"@.is_suffix_of(path)
    ||| "remove_dir_all"@.is_suffix_of(path)
    ||| "remove_dir"@.is_suffix_of(path)
    ||| "OpenOptions::new"@.is_suffix_of(path)
    ||| "fs::rename"@.is_suffix_of(path)
    ||| "set_permissions"@.is_suffix_of(path)
}

/// A call that changes the environment.
pub open spec fn writes_environment(path: Seq<char>) -> bool {
    ||| "env::set_var"@.is_suffix_of(path)
    ||| "env::remove_var"@.is_suffix_of(path)
}

/// A call that reads the environment.
pub open spec fn reads_environment(path: Seq<char>) -> bool {
    ||| "env::var"@.is_suffix_of(path)
    ||| "env::vars"@.is_suffix_of(path)
    ||| "env::var_os"@.is_suffix_of(path)
}

/// A call that takes the bytes of one type for another.
pub open spec fn transmutes(path: Seq<char>) -> bool {
    ||| "mem::transmute"@.is_suffix_of(path)
    ||| "transmute_copy"@.is_suffix_of(path)
}

/// The capability that a call of `path` shows: the first that applies.
pub open spec fn call_kind(path: Seq<char>) -> Option<SignalKind> {
    if spawns_process(path) {
        Some(SignalKind::ProcessSpawn)
    } else if accesses_network(path) {
        Some(SignalKind::NetworkAccess)
    } else if writes_files(path) {
        Some(SignalKind::FilesystemWrite)
    } else if writes_environment(path) {
        Some(SignalKind::EnvWrite)
    } else if reads_environment(path) {
        Some(SignalKind::EnvRead)
    } else if transmutes(path) {
        Some(SignalKind::Transmute)
    } else {
        None
    }
}

/// Classifies a call by the path of the function.
pub fn classify_call(path: &str) -> (r: Option<SignalKind>)
    ensures
        r == call_kind(path@),
{
    let p = chars_of(path);
    if ends_with(&p, "Command::new") {
        Some(SignalKind::ProcessSpawn)
    } else if contains(&p, "TcpStream") || contains(&p, "TcpListener") || contains(&p, "UdpSocket")
        || contains(&p, "UnixStream") || starts_with(&p, "reqwest::") || starts_with(&p, "hyper::")
        || starts_with(&p, "ureq::") {
        Some(SignalKind::NetworkAccess)
    } else if ends_with(&p, "fs::write") || ends_with(&p, "File::create") || ends_with(
        &p,
        "remove_file",
    ) || ends_with(&p, "remove_dir_all") || ends_with(&p, "remove_dir") || ends_with(
        &p,
        "OpenOptions::new",
    ) || ends_with(&p, "fs::rename") || ends_with(&p, "set_permissions") {
        Some(SignalKind::FilesystemWrite)
    } else if ends_with(&p, "env::set_var") || ends_with(&p, "env::remove_var") {
        Some(SignalKind::EnvWrite)
    } else if ends_with(&p, "env::var") || ends_with(&p, "env::vars") || ends_with(
        &p,
        "env::var_os",
    ) {
        Some(SignalKind::EnvRead)
    } else if ends_with(&p, "mem::transmute") || ends_with(&p, "transmute_copy") {
        Some(SignalKind::Transmute)
    } else {
        None
    }
}

/// A macro that reads the environment or a file while the crate is built.
pub open spec fn is_build_time(name: Seq<char>) -> bool {
    ||| name == "env"@
    ||| name == "option_env"@
    ||| name == "include"@
    ||| name == "include_str"@
    ||| name == "include_bytes"@
}

/// Tells whether a macro reads the environment or a file while the crate is built.
pub fn is_build_time_macro(name: &str) -> (r: bool)
    ensures
        r == is_build_time(name@),
{
    is_same(name, "env") || is_same(name, "option_env") || is_same(name, "include") || is_same(
        name,
        "include_str",
    ) || is_same(name, "include_bytes")
}

/// An attribute that pins the name of a symbol.
pub open spec fn pins_symbol(attribute: Seq<Seq<char>>) -> bool {
    ||| path_text(attribute) == "no_mangle"@
    ||| path_text(attribute) == "export_name"@
}

/// One of the attributes pins the name of a symbol.
pub open spec fn exports_symbol(attributes: Seq<Seq<Seq<char>>>) -> bool {
    exists|i: int| 0 <= i < attributes.len() && pins_symbol(#[trigger] attributes[i])
}

/// Tells whether one of the attributes pins the name of a symbol.
pub fn has_export_attribute(attributes: &Vec<Vec<String>>) -> (r: bool)
    ensures
        r == exports_symbol(paths(attributes@)),
{
    for i in 0..attributes.len()
        invariant
            forall|k: int| 0 <= k < i ==> !pins_symbol(#[trigger] paths(attributes@)[k]),
    {
        let path = path_str(&attributes[i]);
        assert(paths(attributes@)[i as int] == texts(attributes@[i as int]@));
        if is_same(path.as_str(), "no_mangle") || is_same(path.as_str(), "export_name") {
            assert(pins_symbol(paths(attributes@)[i as int]));
            return true;
        }
    }
    false
}

/// What is shown of an `extern` block.
pub open spec fn foreign_block_detail(abi: Option<Seq<char>>, items: usize) -> Seq<char> {
    let name = match abi {
        Some(name) => name,
        None => Seq::empty(),
    };
    "extern \""@ + name + "\" { "@ + crate::text::decimal(items as nat) + " item(s) }"@
}

/// One signal in a list of its own where `shown`, and none otherwise.
pub open spec fn signal_if(
    shown: bool,
    kind: SignalKind,
    file: Seq<char>,
    line: usize,
    detail: Seq<char>,
) -> Seq<SignalView> {
    if shown {
        seq![SignalView { kind, file, line, detail }]
    } else {
        Seq::empty()
    }
}

/// The signals that a part of `file` gives.
pub open spec fn signals_of_node(file: Seq<char>, node: NodeView) -> Seq<SignalView> {
    match node {
        NodeView::UnsafeBlock { line } => signal_if(
            true,
            SignalKind::UnsafeBlock,
            file,
            line,
            "unsafe { .. }"@,
        ),
        NodeView::Function { line, name, is_unsafe, attributes } => signal_if(
            is_unsafe,
            SignalKind::UnsafeFn,
            file,
            line,
            name,
        ) + signal_if(exports_symbol(attributes), SignalKind::SymbolExport, file, line, name),
        NodeView::Member { line, name, attributes } => signal_if(
            exports_symbol(attributes),
            SignalKind::SymbolExport,
            file,
            line,
            name,
        ),
        NodeView::Impl { line, is_unsafe, self_type } => signal_if(
            is_unsafe,
            SignalKind::UnsafeImpl,
            file,
            line,
            self_type,
        ),
        NodeView::ForeignBlock { line, abi, items } => signal_if(
            true,
            SignalKind::Ffi,
            file,
            line,
            foreign_block_detail(abi, items),
        ),
        NodeView::Call { line, callee } => match callee {
            Some(names) => match call_kind(path_text(names)) {
                Some(kind) => signal_if(true, kind, file, line, path_text(names)),
                None => Seq::empty(),
            },
            None => Seq::empty(),
        },
        NodeView::MacroCall { line, path } => signal_if(
            is_build_time(path_text(path)),
            SignalKind::BuildTimeMacro,
            file,
            line,
            path_text(path),
        ),
    }
}

/// The signals that the parts of `file` give, in the order of the parts.
pub open spec fn signals_of_nodes(file: Seq<char>, nodes: Seq<NodeView>) -> Seq<SignalView>
    decreases nodes.len(),
{
    if nodes.len() == 0 {
        Seq::empty()
    } else {
        signals_of_nodes(file, nodes.drop_last()) + signals_of_node(file, nodes.last())
    }
}

/// Puts a signal at the end of a list.
fn push_signal(list: &mut Vec<Signal>, kind: SignalKind, file: &str, line: usize, detail: String)
    ensures
        signal_views(final(list)@) == signal_views(old(list)@) + signal_if(
            true,
            kind,
            file@,
            line,
            detail@,
        ),
{
    list.push(Signal { kind, file: file.to_owned(), line, detail });
    assert(signal_views(list@) =~= signal_views(old(list)@) + signal_if(
        true,
        kind,
        file@,
        line,
        detail@,
    ));
}

/// Puts the signals that a part of `file` gives at the end of a list.
fn push_signals_of_node(list: &mut Vec<Signal>, file: &str, node: &Node)
    ensures
        signal_views(final(list)@) == signal_views(old(list)@) + signals_of_node(file@, node@),
{
    let ghost before = signal_views(list@);
    match node {
        Node::UnsafeBlock { line } => {
            push_signal(list, SignalKind::UnsafeBlock, file, *line, "unsafe { .. }".to_owned());
        },
        Node::Function { line, name, is_unsafe, attributes } => {
            if *is_unsafe {
                push_signal(list, SignalKind::UnsafeFn, file, *line, name.clone());
            }
            if has_export_attribute(attributes) {
                push_signal(list, SignalKind::SymbolExport, file, *line, name.clone());
            }
        },
        Node::Member { line, name, attributes } => {
            if has_export_attribute(attributes) {
                push_signal(list, SignalKind::SymbolExport, file, *line, name.clone());
            }
        },
        Node::Impl { line, is_unsafe, self_type } => {
            if *is_unsafe {
                push_signal(list, SignalKind::UnsafeImpl, file, *line, self_type.clone());
            }
        },
        Node::ForeignBlock { line, abi, items } => {
            let mut detail = "extern \"".to_owned();
            if let Some(name) = abi {
                detail.append(name.as_str());
            }
            detail.append("\" { ");
            detail.append(to_decimal(*items).as_str());
            detail.append(" item(s) }");
            assert(detail@ =~= foreign_block_detail(node@->abi, *items));
            push_signal(list, SignalKind::Ffi, file, *line, detail);
        },
        Node::Call { line, callee } => {
            if let Some(names) = callee {
                let detail = path_str(names);
                if let Some(kind) = classify_call(detail.as_str()) {
                    push_signal(list, kind, file, *line, detail);
                }
            }
        },
        Node::MacroCall { line, path } => {
            let name = path_str(path);
            if is_build_time_macro(name.as_str()) {
                push_signal(list, SignalKind::BuildTimeMacro, file, *line, name);
            }
        },
    }
    assert(signal_views(list@) =~= before + signals_of_node(file@, node@));
}

/// Gives the signals of the parts of `file`, in the order of the parts.
pub fn classify_nodes(file: &str, nodes: &Vec<Node>) -> (r: Vec<Signal>)
    ensures
        signal_views(r@) == signals_of_nodes(file@, node_views(nodes@)),
{
    let mut r: Vec<Signal> = Vec::new();
    assert(signal_views(r@) =~= Seq::empty());
    for i in 0..nodes.len()
        invariant
            signal_views(r@) == signals_of_nodes(file@, node_views(nodes@).take(i as int)),
    {
        assert(node_views(nodes@).take(i + 1).drop_last() =~= node_views(nodes@).take(i as int));
        push_signals_of_node(&mut r, file, &nodes[i]);
    }
    assert(node_views(nodes@).take(nodes@.len() as int) =~= node_views(nodes@));
    r
}

/// A path with another path before it.
pub open spec fn qualified(prefix: Seq<char>, path: Seq<char>) -> Seq<char> {
    prefix + "::"@ + path
}

/// A name without colons stands in a qualified path where it stands in one of its parts.
proof fn name_stands_in_a_part(prefix: Seq<char>, path: Seq<char>, name: Seq<char>)
    requires
        name.len() > 0,
        forall|i: int| 0 <= i < name.len() ==> #[trigger] name[i] != ':',
    ensures
        crate::text::contains_text(qualified(prefix, path), name) == (crate::text::contains_text(
            prefix,
            name,
        ) || crate::text::contains_text(path, name)),
{
    reveal_strlit("::");
    let whole = qualified(prefix, path);
    let n = prefix.len() as int;
    assert(whole[n] == ':' && whole[n + 1] == ':');
    if crate::text::contains_text(whole, name) {
        let at = choose|at: int| crate::text::stands_at(whole, at, name);
        let here = whole.subrange(at, at + name.len());
        if at + name.len() <= n {
            assert(prefix.subrange(at, at + name.len()) =~= here);
            assert(crate::text::stands_at(prefix, at, name));
        } else if at >= n + 2 {
            assert(path.subrange(at - n - 2, at - n - 2 + name.len()) =~= here);
            assert(crate::text::stands_at(path, at - n - 2, name));
        } else {
            let colon = if at <= n {
                n
            } else {
                n + 1
            };
            assert(here[colon - at] == name[colon - at]);
        }
    }
    if crate::text::contains_text(prefix, name) {
        let at = choose|at: int| crate::text::stands_at(prefix, at, name);
        assert(whole.subrange(at, at + name.len()) =~= prefix.subrange(at, at + name.len()));
        assert(crate::text::stands_at(whole, at, name));
    }
    if crate::text::contains_text(path, name) {
        let at = choose|at: int| crate::text::stands_at(path, at, name);
        assert(whole.subrange(at + n + 2, at + n + 2 + name.len()) =~= path.subrange(
            at,
            at + name.len(),
        ));
        assert(crate::text::stands_at(whole, at + n + 2, name));
    }
}

/// A qualified path starts at a crate where what stands before it does.
proof fn qualified_starts_with_prefix(prefix: Seq<char>, path: Seq<char>, start: Seq<char>)
    requires
        start.len() >= 2,
        forall|i: int| 0 <= i < start.len() - 2 ==> #[trigger] start[i] != ':',
    ensures
        start.is_prefix_of(qualified(prefix, path)) == start.is_prefix_of(prefix + "::"@),
{
    reveal_strlit("::");
    let whole = qualified(prefix, path);
    let front = prefix + "::"@;
    let n = prefix.len() as int;
    assert(whole[n] == ':');
    if start.is_prefix_of(whole) {
        assert(start =~= whole.subrange(0, start.len() as int));
        if start.len() > n + 2 {
            assert(start[n] == whole[n]);
        }
        assert(start =~= front.subrange(0, start.len() as int));
    }
    if start.is_prefix_of(front) {
        assert(start =~= whole.subrange(0, start.len() as int));
    }
}

/// A qualified call accesses the network where a socket is named in it, before the path or
/// in it, or where it starts at a common HTTP crate.
pub proof fn network_of_qualified_call(prefix: Seq<char>, path: Seq<char>)
    ensures
        accesses_network(qualified(prefix, path)) == (names_socket(prefix) || names_socket(path)
            || starts_at_http_crate(prefix + "::"@)),
{
    reveal_strlit("TcpStream");
    reveal_strlit("TcpListener");
    reveal_strlit("UdpSocket");
    reveal_strlit("UnixStream");
    reveal_strlit("reqwest::");
    reveal_strlit("hyper::");
    reveal_strlit("ureq::");
    name_stands_in_a_part(prefix, path, "TcpStream"@);
    name_stands_in_a_part(prefix, path, "TcpListener"@);
    name_stands_in_a_part(prefix, path, "UdpSocket"@);
    name_stands_in_a_part(prefix, path, "UnixStream"@);
    qualified_starts_with_prefix(prefix, path, "reqwest::"@);
    qualified_starts_with_prefix(prefix, path, "hyper::"@);
    qualified_starts_with_prefix(prefix, path, "ureq::"@);
}

/// An end of a path is an end of the qualified path. An end that only the qualified path
/// has is longer than each end of the path, and ends as it does.
proof fn ends_of_qualified(prefix: Seq<char>, path: Seq<char>, end: Seq<char>)
    requires
        end.len() >= 4,
    ensures
        end.is_suffix_of(path) ==> end.is_suffix_of(qualified(prefix, path)),
        end.is_suffix_of(path) ==> forall|other: Seq<char>| #[trigger]
            other.is_suffix_of(qualified(prefix, path)) && !other.is_suffix_of(path) ==> {
                &&& other.len() > end.len()
                &&& other[other.len() - 1] == end[end.len() - 1]
                &&& other[other.len() - 2] == end[end.len() - 2]
                &&& other[other.len() - 4] == end[end.len() - 4]
            },
{
    let whole = qualified(prefix, path);
    let w = whole.len() as int;
    let n = path.len() as int;
    if end.is_suffix_of(path) {
        assert(end =~= path.subrange(n - end.len(), n));
        assert(end =~= whole.subrange(w - end.len(), w));
        assert forall|other: Seq<char>| #[trigger]
            other.is_suffix_of(whole) && !other.is_suffix_of(path) implies {
            &&& other.len() > end.len()
            &&& other[other.len() - 1] == end[end.len() - 1]
            &&& other[other.len() - 2] == end[end.len() - 2]
            &&& other[other.len() - 4] == end[end.len() - 4]
        } by {
            assert(other =~= whole.subrange(w - other.len(), w));
            if other.len() <= n {
                assert(other =~= path.subrange(n - other.len(), n));
            }
            assert(other[other.len() - 1] == whole[w - 1]);
            assert(other[other.len() - 2] == whole[w - 2]);
            assert(other[other.len() - 4] == whole[w - 4]);
        }
    }
}

/// A path that a qualified call that starts a process ends with, and that starts none
/// itself, is an end of `Command::new`.
proof fn end_of_spawn(prefix: Seq<char>, path: Seq<char>)
    requires
        spawns_process(qualified(prefix, path)),
        !spawns_process(path),
    ensures
        path.is_suffix_of("Command::new"@),
        path.len() < "Command::new"@.len(),
{
    let spawn = "Command::new"@;
    let whole = qualified(prefix, path);
    let w = whole.len() as int;
    let n = path.len() as int;
    assert(spawn =~= whole.subrange(w - spawn.len(), w));
    if spawn.len() <= n {
        assert(spawn =~= path.subrange(n - spawn.len(), n));
    } else {
        assert(path =~= spawn.subrange(spawn.len() - n, spawn.len() as int));
    }
}

/// No end of `Command::new` accesses the network.
proof fn spawn_is_no_network(path: Seq<char>)
    requires
        path.is_suffix_of("Command::new"@),
    ensures
        !accesses_network(path),
{
    let spawn = "Command::new"@;
    reveal_strlit("Command::new");
    reveal_strlit("TcpStream");
    reveal_strlit("TcpListener");
    reveal_strlit("UdpSocket");
    reveal_strlit("UnixStream");
    reveal_strlit("reqwest::");
    reveal_strlit("hyper::");
    reveal_strlit("ureq::");
    assert forall|i: int| 0 <= i < path.len() implies {
        &&& #[trigger] path[i] != 'T'
        &&& path[i] != 'U'
        &&& path[i] != 'r'
        &&& path[i] != 'h'
        &&& path[i] != 'u'
    } by {
        assert(path[i] == spawn[spawn.len() - path.len() + i]);
    }
    assert forall|name: Seq<char>| name.len() > 0 && (name[0] == 'T' || name[0]
        == 'U') implies !#[trigger] crate::text::contains_text(path, name) by {
        if crate::text::contains_text(path, name) {
            let at = choose|at: int| crate::text::stands_at(path, at, name);
            assert(path.subrange(at, at + name.len())[0] == path[at]);
        }
    }
    assert forall|start: Seq<char>| start.len() > 0 && (start[0] == 'r' || start[0] == 'h'
        || start[0] == 'u') implies !#[trigger] start.is_prefix_of(path) by {
        if start.is_prefix_of(path) {
            assert(path.subrange(0, start.len() as int)[0] == path[0]);
        }
    }
}

/// A call that is recognised is recognised as the same whatever path stands before it,
/// but for the network: a call that starts no process accesses the network where the
/// path before it says so, and no more where a common HTTP crate is no longer at its
/// start.
pub proof fn qualified_call_is_recognised(prefix: Seq<char>, path: Seq<char>)
    requires
        call_kind(path) is Some,
        spawns_process(path) || accesses_network(path) == (names_socket(prefix) || names_socket(
            path,
        ) || starts_at_http_crate(prefix + "::"@)),
    ensures
        call_kind(qualified(prefix, path)) == call_kind(path),
{
    network_of_qualified_call(prefix, path);
    if spawns_process(qualified(prefix, path)) && !spawns_process(path) {
        end_of_spawn(prefix, path);
        spawn_is_no_network(path);
    }
    reveal_strlit("Command::new");
    reveal_strlit("fs::write");
    reveal_strlit("File::create");
    reveal_strlit("remove_file");
    reveal_strlit("remove_dir_all");
    reveal_strlit("remove_dir");
    reveal_strlit("OpenOptions::new");
    reveal_strlit("fs::rename");
    reveal_strlit("set_permissions");
    reveal_strlit("env::set_var");
    reveal_strlit("env::remove_var");
    reveal_strlit("env::var");
    reveal_strlit("env::vars");
    reveal_strlit("env::var_os");
    reveal_strlit("mem::transmute");
    reveal_strlit("transmute_copy");
    ends_of_qualified(prefix, path, "Command::new"@);
    ends_of_qualified(prefix, path, "fs::write"@);
    ends_of_qualified(prefix, path, "File::create"@);
    ends_of_qualified(prefix, path, "remove_file"@);
    ends_of_qualified(prefix, path, "remove_dir_all"@);
    ends_of_qualified(prefix, path, "remove_dir"@);
    ends_of_qualified(prefix, path, "OpenOptions::new"@);
    ends_of_qualified(prefix, path, "fs::rename"@);
    ends_of_qualified(prefix, path, "set_permissions"@);
    ends_of_qualified(prefix, path, "env::set_var"@);
    ends_of_qualified(prefix, path, "env::remove_var"@);
    ends_of_qualified(prefix, path, "env::var"@);
    ends_of_qualified(prefix, path, "env::vars"@);
    ends_of_qualified(prefix, path, "env::var_os"@);
    ends_of_qualified(prefix, path, "mem::transmute"@);
    ends_of_qualified(prefix, path, "transmute_copy"@);
}

/// A call that is recognised by its end is recognised exactly by that, and one that
/// accesses the network by a socket that it names or the crate at which it starts.
pub proof fn calls_are_recognised_by_their_text(path: Seq<char>)
    ensures
        spawns_process(path) <==> "Command::new"@.is_suffix_of(path),
        accesses_network(path) <==> {
            ||| crate::text::contains_text(path, "TcpStream"@)
            ||| crate::text::contains_text(path, "TcpListener"@)
            ||| crate::text::contains_text(path, "UdpSocket"@)
            ||| crate::text::contains_text(path, "UnixStream"@)
            ||| "reqwest::"@.is_prefix_of(path)
            ||| "hyper::"@.is_prefix_of(path)
            ||| "ureq::"@.is_prefix_of(path)
        },
        writes_files(path) <==> {
            ||| "fs::write"@.is_suffix_of(path)
            ||| "File::create"@.is_suffix_of(path)
            ||| "remove_file"@.is_suffix_of(path)
            ||| "remove_dir_all"@.is_suffix_of(path)
            ||| "remove_dir"@.is_suffix_of(path)
            ||| "OpenOptions::new"@.is_suffix_of(path)
            ||| "fs::rename"@.is_suffix_of(path)
            ||| "set_permissions"@.is_suffix_of(path)
        },
        writes_environment(path) <==> {
            ||| "env::set_var"@.is_suffix_of(path)
            ||| "env::remove_var"@.is_suffix_of(path)
        },
        reads_environment(path) <==> {
            ||| "env::var"@.is_suffix_of(path)
            ||| "env::vars"@.is_suffix_of(path)
            ||| "env::var_os"@.is_suffix_of(path)
        },
        transmutes(path) <==> {
            ||| "mem::transmute"@.is_suffix_of(path)
            ||| "transmute_copy"@.is_suffix_of(path)
        },
{
}

/// No capability that a call shows is lost but to one that is looked for before it, and
/// none is made up.
pub proof fn call_shows_the_first_that_applies(path: Seq<char>)
    ensures
        call_kind(path) == Some(SignalKind::ProcessSpawn) <==> spawns_process(path),
        call_kind(path) == Some(SignalKind::NetworkAccess) <==> !spawns_process(path)
            && accesses_network(path),
        call_kind(path) == Some(SignalKind::FilesystemWrite) <==> !spawns_process(path)
            && !accesses_network(path) && writes_files(path),
        call_kind(path) == Some(SignalKind::EnvWrite) <==> !spawns_process(path)
            && !accesses_network(path) && !writes_files(path) && writes_environment(path),
        call_kind(path) == Some(SignalKind::EnvRead) <==> !spawns_process(path)
            && !accesses_network(path) && !writes_files(path) && !writes_environment(path)
            && reads_environment(path),
        call_kind(path) == Some(SignalKind::Transmute) <==> !spawns_process(path)
            && !accesses_network(path) && !writes_files(path) && !writes_environment(path)
            && !reads_environment(path) && transmutes(path),
        call_kind(path) is None <==> !spawns_process(path) && !accesses_network(path)
            && !writes_files(path) && !writes_environment(path) && !reads_environment(path)
            && !transmutes(path),
{
}

/// A macro reads at build time exactly where it is one of five.
pub proof fn build_time_macros_are_five(name: Seq<char>)
    ensures
        is_build_time(name) <==> seq![
            "env"@,
            "option_env"@,
            "include"@,
            "include_str"@,
            "include_bytes"@,
        ].contains(name),
{
    let five = seq!["env"@, "option_env"@, "include"@, "include_str"@, "include_bytes"@];
    assert(five[0] == "env"@ && five[1] == "option_env"@ && five[2] == "include"@ && five[3]
        == "include_str"@ && five[4] == "include_bytes"@);
}

/// A path of several names holds a colon.
proof fn longer_path_holds_a_colon(path: Seq<Seq<char>>)
    requires
        path.len() >= 2,
    ensures
        path_text(path).contains(':'),
{
    reveal_strlit("::");
    let front = crate::text::joined(path.drop_last(), "::"@);
    assert(path_text(path)[front.len() as int] == ':');
}

/// Symbols are exported exactly where one of the attributes is `no_mangle` or
/// `export_name`, and nothing else than these names.
pub proof fn symbols_are_exported_by_two_attributes(attributes: Seq<Seq<Seq<char>>>)
    ensures
        exports_symbol(attributes) <==> attributes.contains(seq!["no_mangle"@])
            || attributes.contains(seq!["export_name"@]),
{
    reveal_strlit("no_mangle");
    reveal_strlit("export_name");
    assert forall|attribute: Seq<Seq<char>>| #[trigger] pins_symbol(attribute) == (attribute
        == seq!["no_mangle"@] || attribute == seq!["export_name"@]) by {
        if attribute.len() >= 2 {
            longer_path_holds_a_colon(attribute);
            let i = path_text(attribute).index_of(':');
            assert(path_text(attribute)[i] == ':');
            assert(attribute != seq!["no_mangle"@] && attribute != seq!["export_name"@]);
        } else if attribute.len() == 1 {
            assert(attribute =~= seq![attribute[0]]);
            assert(path_text(attribute) == attribute[0]);
            assert(seq!["no_mangle"@][0] == "no_mangle"@);
            assert(seq!["export_name"@][0] == "export_name"@);
        } else {
            assert(path_text(attribute) =~= Seq::empty());
        }
    }
    if exports_symbol(attributes) {
        let i = choose|i: int| 0 <= i < attributes.len() && pins_symbol(#[trigger] attributes[i]);
        assert(attributes.contains(attributes[i]));
    }
    if attributes.contains(seq!["no_mangle"@]) {
        let i = attributes.index_of(seq!["no_mangle"@]);
        assert(pins_symbol(attributes[i]));
    }
    if attributes.contains(seq!["export_name"@]) {
        let i = attributes.index_of(seq!["export_name"@]);
        assert(pins_symbol(attributes[i]));
    }
}

/// What each part shows: an unsafe block and an `extern` block always one signal, others
/// where they are unsafe, export a symbol, or call what is recognised; always in the file
/// and on the line of the part.
pub proof fn parts_show_their_capabilities(file: Seq<char>, node: NodeView)
    ensures
        match node {
            NodeView::UnsafeBlock { line } => signals_of_node(file, node) == seq![
                SignalView {
                    kind: SignalKind::UnsafeBlock,
                    file,
                    line,
                    detail: "unsafe { .. }"@,
                },
            ],
            NodeView::Function { line, name, is_unsafe, attributes } => {
                let of_unsafe = SignalView { kind: SignalKind::UnsafeFn, file, line, detail: name };
                let of_export = SignalView {
                    kind: SignalKind::SymbolExport,
                    file,
                    line,
                    detail: name,
                };
                &&& is_unsafe && exports_symbol(attributes) ==> signals_of_node(file, node)
                    == seq![of_unsafe, of_export]
                &&& is_unsafe && !exports_symbol(attributes) ==> signals_of_node(file, node)
                    == seq![of_unsafe]
                &&& !is_unsafe && exports_symbol(attributes) ==> signals_of_node(file, node)
                    == seq![of_export]
                &&& !is_unsafe && !exports_symbol(attributes) ==> signals_of_node(
                    file,
                    node,
                ).len() == 0
            },
            NodeView::Member { line, name, attributes } => {
                &&& exports_symbol(attributes) ==> signals_of_node(file, node) == seq![
                    SignalView { kind: SignalKind::SymbolExport, file, line, detail: name },
                ]
                &&& !exports_symbol(attributes) ==> signals_of_node(file, node).len() == 0
            },
            NodeView::Impl { line, is_unsafe, self_type } => {
                &&& is_unsafe ==> signals_of_node(file, node) == seq![
                    SignalView { kind: SignalKind::UnsafeImpl, file, line, detail: self_type },
                ]
                &&& !is_unsafe ==> signals_of_node(file, node).len() == 0
            },
            NodeView::ForeignBlock { line, abi: Some(abi), items } => signals_of_node(file, node)
                == seq![
                SignalView {
                    kind: SignalKind::Ffi,
                    file,
                    line,
                    detail: "extern \""@ + abi + "\" { "@ + crate::text::decimal(items as nat)
                        + " item(s) }"@,
                },
            ],
            NodeView::ForeignBlock { line, abi: None, items } => signals_of_node(file, node)
                == seq![
                SignalView {
                    kind: SignalKind::Ffi,
                    file,
                    line,
                    detail: "extern \""@ + "\" { "@ + crate::text::decimal(items as nat)
                        + " item(s) }"@,
                },
            ],
            NodeView::Call { line, callee: Some(names) } => {
                let path = crate::text::joined(names, "::"@);
                &&& call_kind(path) matches Some(kind) ==> signals_of_node(file, node) == seq![
                    SignalView { kind, file, line, detail: path },
                ]
                &&& call_kind(path) is None ==> signals_of_node(file, node).len() == 0
            },
            NodeView::Call { line, callee: None } => signals_of_node(file, node).len() == 0,
            NodeView::MacroCall { line, path } => {
                let name = crate::text::joined(path, "::"@);
                &&& is_build_time(name) ==> signals_of_node(file, node) == seq![
                    SignalView { kind: SignalKind::BuildTimeMacro, file, line, detail: name },
                ]
                &&& !is_build_time(name) ==> signals_of_node(file, node).len() == 0
            },
        },
{
    if let NodeView::ForeignBlock { line, abi: None, items } = node {
        assert(foreign_block_detail(None, items) =~= "extern \""@ + "\" { "@
            + crate::text::decimal(items as nat) + " item(s) }"@);
    }
    if let NodeView::Function { line, name, is_unsafe, attributes } = node {
        let of_unsafe = SignalView { kind: SignalKind::UnsafeFn, file, line, detail: name };
        let of_export = SignalView { kind: SignalKind::SymbolExport, file, line, detail: name };
        if is_unsafe && exports_symbol(attributes) {
            assert(signals_of_node(file, node) =~= seq![of_unsafe, of_export]);
        } else if is_unsafe {
            assert(signals_of_node(file, node) =~= seq![of_unsafe]);
        } else if exports_symbol(attributes) {
            assert(signals_of_node(file, node) =~= seq![of_export]);
        }
    }
}

/// The signals of parts add up: those of two lists of parts put together are those of the
/// first followed by those of the second, and one part gives its own.
pub proof fn signals_of_parts_add_up(
    file: Seq<char>,
    a: Seq<NodeView>,
    b: Seq<NodeView>,
    node: NodeView,
)
    ensures
        signals_of_nodes(file, a + b) == signals_of_nodes(file, a) + signals_of_nodes(file, b),
        signals_of_nodes(file, seq![node]) == signals_of_node(file, node),
        signals_of_nodes(file, Seq::empty()).len() == 0,
    decreases b.len(),
{
    if b.len() == 0 {
        assert(a + b =~= a);
        assert(signals_of_nodes(file, a) =~= signals_of_nodes(file, a) + signals_of_nodes(file, b));
    } else {
        signals_of_parts_add_up(file, a, b.drop_last(), node);
        assert((a + b).drop_last() =~= a + b.drop_last());
        assert(signals_of_nodes(file, a + b) =~= signals_of_nodes(file, a) + signals_of_nodes(
            file,
            b,
        ));
    }
    assert(seq![node].drop_last() =~= Seq::empty());
    assert(seq![node].last() == node);
    assert(signals_of_nodes(file, seq![node].drop_last()) =~= Seq::empty());
    assert(signals_of_nodes(file, seq![node]) =~= signals_of_node(file, node));
}

/// Each signal of a part is among those of the parts, and each of these is one of a part.
pub proof fn signals_come_from_parts(file: Seq<char>, nodes: Seq<NodeView>, s: SignalView)
    ensures
        signals_of_nodes(file, nodes).contains(s) <==> exists|i: int|
            0 <= i < nodes.len() && signals_of_node(file, #[trigger] nodes[i]).contains(s),
    decreases nodes.len(),
{
    if nodes.len() > 0 {
        let rest = nodes.drop_last();
        let earlier = signals_of_nodes(file, rest);
        let own = signals_of_node(file, nodes.last());
        let all = signals_of_nodes(file, nodes);
        signals_come_from_parts(file, rest, s);
        if all.contains(s) {
            let k = all.index_of(s);
            if k < earlier.len() {
                assert(earlier[k] == s);
                let i = choose|i: int|
                    0 <= i < rest.len() && signals_of_node(file, #[trigger] rest[i]).contains(s);
                assert(nodes[i] == rest[i]);
            } else {
                assert(own[k - earlier.len()] == s);
                assert(nodes[nodes.len() - 1] == nodes.last());
            }
        }
        if exists|i: int|
            0 <= i < nodes.len() && signals_of_node(file, #[trigger] nodes[i]).contains(s) {
            let i = choose|i: int|
                0 <= i < nodes.len() && signals_of_node(file, #[trigger] nodes[i]).contains(s);
            if i < rest.len() {
                assert(rest[i] == nodes[i]);
                let k = earlier.index_of(s);
                assert(all[k] == s);
            } else {
                let k = own.index_of(s);
                assert(all[earlier.len() + k] == s);
            }
        }
    }
}

} // verus!
