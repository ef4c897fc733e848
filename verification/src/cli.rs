//! The command line.
use crate::text::{is_same, texts};
use vstd::prelude::*;

verus! {

/// The arguments without the name under which cargo runs a subcommand: `cargo capscan ..`
/// runs `cargo-capscan capscan ..`.
pub open spec fn own_arguments(arguments: Seq<Seq<char>>) -> Seq<Seq<char>> {
    if arguments.len() > 1 && arguments[1] == "capscan"@ {
        arguments.remove(1)
    } else {
        arguments
    }
}

/// Drops the name under which cargo runs a subcommand, whether the program was run by
/// cargo or directly.
pub fn drop_subcommand(arguments: Vec<String>) -> (r: Vec<String>)
    ensures
        texts(r@) == own_arguments(texts(arguments@)),
{
    let mut r = arguments;
    if r.len() > 1 && is_same(r[1].as_str(), "capscan") {
        let ghost before = r@;
        r.remove(1);
        assert(texts(r@) =~= texts(before).remove(1));
    }
    r
}

/// The name of the subcommand is dropped where it is the first argument, and every other
/// argument stays.
pub proof fn subcommand_is_dropped_once(program: Seq<char>, rest: Seq<Seq<char>>)
    ensures
        own_arguments(seq![program, "capscan"@] + rest) == seq![program] + rest,
        rest.len() == 0 || rest[0] != "capscan"@ ==> own_arguments(seq![program] + rest)
            == seq![program] + rest,
        own_arguments(Seq::empty()).len() == 0,
{
    let with = seq![program, "capscan"@] + rest;
    assert(with[1] == "capscan"@);
    assert(with.remove(1) =~= seq![program] + rest);
    if rest.len() > 0 {
        assert((seq![program] + rest)[1] == rest[0]);
    }
}

} // verus!
