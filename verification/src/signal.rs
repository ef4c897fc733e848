//! Capability signals: what was seen in a crate's source, and where.
use crate::severity::Severity;
use vstd::prelude::*;

verus! {

/// The capabilities that a crate can show.
#[derive(Debug, Clone, Copy, PartialEq, Eq, Hash, Structural)]
pub enum SignalKind {
    UnsafeBlock,
    UnsafeFn,
    UnsafeImpl,
    Ffi,
    SymbolExport,
    Transmute,
    ProcessSpawn,
    NetworkAccess,
    FilesystemWrite,
    EnvRead,
    EnvWrite,
    BuildTimeMacro,
    BuildScript,
    ProcMacroCrate,
    NativeLinkage,
}

impl SignalKind {
    /// The severity of a kind.
    pub open spec fn severity_of(self) -> Severity {
        match self {
            SignalKind::UnsafeFn => Severity::High,
            SignalKind::UnsafeImpl => Severity::High,
            SignalKind::Ffi => Severity::High,
            SignalKind::SymbolExport => Severity::High,
            SignalKind::Transmute => Severity::High,
            SignalKind::ProcessSpawn => Severity::High,
            SignalKind::BuildScript => Severity::High,
            SignalKind::ProcMacroCrate => Severity::High,
            SignalKind::NativeLinkage => Severity::High,
            SignalKind::UnsafeBlock => Severity::Medium,
            SignalKind::NetworkAccess => Severity::Medium,
            SignalKind::FilesystemWrite => Severity::Medium,
            SignalKind::EnvWrite => Severity::Medium,
            SignalKind::EnvRead => Severity::Low,
            SignalKind::BuildTimeMacro => Severity::Low,
        }
    }

    /// The words for a kind.
    pub open spec fn words(self) -> Seq<char> {
        match self {
            SignalKind::UnsafeBlock => "unsafe block"@,
            SignalKind::UnsafeFn => "unsafe fn"@,
            SignalKind::UnsafeImpl => "unsafe impl"@,
            SignalKind::Ffi => "extern FFI block"@,
            SignalKind::SymbolExport => "exported symbol"@,
            SignalKind::Transmute => "transmute"@,
            SignalKind::ProcessSpawn => "process spawn"@,
            SignalKind::NetworkAccess => "network access"@,
            SignalKind::FilesystemWrite => "filesystem write"@,
            SignalKind::EnvRead => "env read"@,
            SignalKind::EnvWrite => "env write"@,
            SignalKind::BuildTimeMacro => "build-time macro"@,
            SignalKind::BuildScript => "build.rs script"@,
            SignalKind::ProcMacroCrate => "proc-macro crate"@,
            SignalKind::NativeLinkage => "native library linkage"@,
        }
    }

    /// How much attention a newly added signal of this kind deserves.
    pub fn severity(&self) -> (r: Severity)
        ensures
            r == self.severity_of(),
    {
        match self {
            SignalKind::UnsafeFn
            | SignalKind::UnsafeImpl
            | SignalKind::Ffi
            | SignalKind::SymbolExport
            | SignalKind::Transmute
            | SignalKind::ProcessSpawn
            | SignalKind::BuildScript
            | SignalKind::ProcMacroCrate
            | SignalKind::NativeLinkage => Severity::High,
            SignalKind::UnsafeBlock
            | SignalKind::NetworkAccess
            | SignalKind::FilesystemWrite
            | SignalKind::EnvWrite => Severity::Medium,
            SignalKind::EnvRead | SignalKind::BuildTimeMacro => Severity::Low,
        }
    }

    /// Gives the words for a kind.
    pub fn label(&self) -> (r: &'static str)
        ensures
            r@ == self.words(),
    {
        match self {
            SignalKind::UnsafeBlock => "unsafe block",
            SignalKind::UnsafeFn => "unsafe fn",
            SignalKind::UnsafeImpl => "unsafe impl",
            SignalKind::Ffi => "extern FFI block",
            SignalKind::SymbolExport => "exported symbol",
            SignalKind::Transmute => "transmute",
            SignalKind::ProcessSpawn => "process spawn",
            SignalKind::NetworkAccess => "network access",
            SignalKind::FilesystemWrite => "filesystem write",
            SignalKind::EnvRead => "env read",
            SignalKind::EnvWrite => "env write",
            SignalKind::BuildTimeMacro => "build-time macro",
            SignalKind::BuildScript => "build.rs script",
            SignalKind::ProcMacroCrate => "proc-macro crate",
            SignalKind::NativeLinkage => "native library linkage",
        }
    }
}

/// One capability, seen at one place.
#[derive(Debug, PartialEq, Eq)]
pub struct Signal {
    pub kind: SignalKind,
    pub file: String,
    pub line: usize,
    pub detail: String,
}

/// What a [`Signal`] holds.
#[verifier::ext_equal]
pub struct SignalView {
    pub kind: SignalKind,
    pub file: Seq<char>,
    pub line: usize,
    pub detail: Seq<char>,
}

impl View for Signal {
    type V = SignalView;

    open spec fn view(&self) -> SignalView {
        SignalView { kind: self.kind, file: self.file@, line: self.line, detail: self.detail@ }
    }
}

impl SignalView {
    /// The identity of a signal across versions: what was seen, not where.
    pub open spec fn key(self) -> (SignalKind, Seq<char>) {
        (self.kind, self.detail)
    }
}

/// What the signals of a list hold.
pub open spec fn signal_views(list: Seq<Signal>) -> Seq<SignalView> {
    list.map_values(|s: Signal| s@)
}

/// The identities of the signals of a list.
pub open spec fn keys(list: Seq<SignalView>) -> Seq<(SignalKind, Seq<char>)> {
    list.map_values(|s: SignalView| s.key())
}

impl Clone for Signal {
    fn clone(&self) -> (r: Signal)
        ensures
            r@ == self@,
    {
        Signal {
            kind: self.kind,
            file: self.file.clone(),
            line: self.line,
            detail: self.detail.clone(),
        }
    }
}

impl Signal {
    /// Identity used when diffing across versions: line numbers shift constantly and
    /// should not cause noise, so it is the kind and what was detected, not where.
    pub fn dedup_key(&self) -> (r: (SignalKind, String))
        ensures
            (r.0, r.1@) == self@.key(),
            r.0 == self.kind,
            r.1@ == self.detail@,
    {
        (self.kind, self.detail.clone())
    }

    /// Tells whether two signals have the same identity.
    pub fn same_key(&self, other: &Signal) -> (r: bool)
        ensures
            r == (self@.key() == other@.key()),
            r == (self.kind == other.kind && self.detail@ == other.detail@),
    {
        self.kind == other.kind && self.detail == other.detail
    }
}

/// Tells whether a signal of `list` has the identity of `signal`.
pub fn has_key(list: &Vec<Signal>, signal: &Signal) -> (r: bool)
    ensures
        r == keys(signal_views(list@)).contains(signal@.key()),
        r == exists|i: int|
            0 <= i < list@.len() && (#[trigger] list@[i]).kind == signal.kind && list@[i].detail@
                == signal.detail@,
{
    for i in 0..list.len()
        invariant
            forall|k: int| 0 <= k < i ==> keys(signal_views(list@))[k] != signal@.key(),
            forall|k: int|
                0 <= k < i ==> (#[trigger] list@[k]).kind != signal.kind || list@[k].detail@
                    != signal.detail@,
    {
        if list[i].same_key(signal) {
            assert(keys(signal_views(list@))[i as int] == signal@.key());
            return true;
        }
    }
    false
}

/// Two signals have the same identity exactly where both their kinds and their details
/// are equal.
pub proof fn identity_is_kind_and_detail(a: SignalView, b: SignalView)
    ensures
        a.key() == b.key() <==> a.kind == b.kind && a.detail == b.detail,
{
}

/// An identity occurs in a list exactly where a signal of the list has that kind and that
/// detail.
pub proof fn identities_are_those_of_signals(list: Seq<SignalView>, s: SignalView)
    ensures
        keys(list).len() == list.len(),
        forall|i: int| 0 <= i < list.len() ==> #[trigger] keys(list)[i] == list[i].key(),
        keys(list).contains(s.key()) <==> exists|i: int|
            0 <= i < list.len() && (#[trigger] list[i]).kind == s.kind && list[i].detail
                == s.detail,
{
    if keys(list).contains(s.key()) {
        let i = keys(list).index_of(s.key());
        assert(keys(list)[i] == list[i].key());
    }
    if exists|i: int|
        0 <= i < list.len() && (#[trigger] list[i]).kind == s.kind && list[i].detail == s.detail {
        let i = choose|i: int|
            0 <= i < list.len() && (#[trigger] list[i]).kind == s.kind && list[i].detail
                == s.detail;
        assert(keys(list)[i] == s.key());
    }
}

/// A signal is seen with all that it holds, and so is each signal of a list.
pub proof fn signals_are_seen_whole(s: Signal, list: Seq<Signal>)
    ensures
        s@.kind == s.kind,
        s@.file == s.file@,
        s@.line == s.line,
        s@.detail == s.detail@,
        signal_views(list).len() == list.len(),
        forall|i: int| 0 <= i < list.len() ==> #[trigger] signal_views(list)[i] == list[i]@,
{
}

/// What runs code unseen or leaves Rust's guarantees is grave, what reaches out of the
/// program is of medium severity, and what only reads is harmless.
pub proof fn kinds_have_their_severities(kind: SignalKind)
    ensures
        kind.severity_of() == Severity::Low <==> kind is EnvRead || kind is BuildTimeMacro,
        kind.severity_of() == Severity::Medium <==> kind is UnsafeBlock || kind is NetworkAccess
            || kind is FilesystemWrite || kind is EnvWrite,
{
}

/// Each kind has its words.
pub proof fn kinds_have_their_words()
    ensures
        SignalKind::UnsafeBlock.words() == "unsafe block"@,
        SignalKind::UnsafeFn.words() == "unsafe fn"@,
        SignalKind::UnsafeImpl.words() == "unsafe impl"@,
        SignalKind::Ffi.words() == "extern FFI block"@,
        SignalKind::SymbolExport.words() == "exported symbol"@,
        SignalKind::Transmute.words() == "transmute"@,
        SignalKind::ProcessSpawn.words() == "process spawn"@,
        SignalKind::NetworkAccess.words() == "network access"@,
        SignalKind::FilesystemWrite.words() == "filesystem write"@,
        SignalKind::EnvRead.words() == "env read"@,
        SignalKind::EnvWrite.words() == "env write"@,
        SignalKind::BuildTimeMacro.words() == "build-time macro"@,
        SignalKind::BuildScript.words() == "build.rs script"@,
        SignalKind::ProcMacroCrate.words() == "proc-macro crate"@,
        SignalKind::NativeLinkage.words() == "native library linkage"@,
{
}

} // verus!
