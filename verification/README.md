# capscan

`cargo update` can hand a dependency new abilities: a build script that was not
there before, a new `unsafe fn`, a spawned process, a socket. capscan reads the
source of a crate structurally and tells what changed, capability by capability,
between two versions.

```
cargo capscan scan anyhow 1.0.104
cargo capscan diff anyhow 1.0.70 1.0.104
cargo capscan audit --min-severity medium
```

`diff` and `audit` exit with 2 where the worst new capability is of high
severity, with 1 where it is of medium severity, and with 0 otherwise. A new
dependency counts as medium. `--json` gives machine-readable output.

## Layout

`src/` is the library. Its behaviour is stated in contracts and proved with Verus.

| module | what it holds |
|---|---|
| `text`, `sort`, `names` | texts, stable sorting, sorted lists of names |
| `severity`, `signal` | how grave a capability is, and what a signal is |
| `syntax`, `classify` | the nodes of a source file that matter, and the signals they give |
| `document`, `manifest` | TOML documents, and what a manifest declares |
| `scan`, `report` | the report on a crate, and how it is shown |
| `diff` | what one report has over another, and how grave that is |
| `lockfile`, `audit` | what lockfiles pin, and whole projects |
| `registry`, `cli` | where a crate is found or fetched, and the command line |

`app/` is the program around it: files, directories, cargo, JSON and arguments.
`tests/` runs the library.

## What is trusted

Parsing is left to `syn` and `toml`. `syntax::outline` and `document::parse_document`
name the results of these parsers. The wrappers in `syntax` that read a node of the tree
name what the node holds, and those that walk on name the parts that lie below it; of the
line on which a part starts they say only that it is counted from 1, and `outline` that it
is one of the lines of the file. That every part is put down with what its node holds,
followed by all that lies below it, is proved over these names, and so is all that is made
of the parts.

## Limits

Calls are recognised by the text of their path, not by name resolution. A call through an
alias is not seen, and a type of another crate that is also named `Command` is. A crate
whose Rust files have 2^30 characters or more is refused.
