# rpool

Manage a pool of repository clones for faster branch switching.

For repositories with large submodules and expensive builds, `rpool` maintains a
pool of full clones that keep their build state. A branch is checked out in a clone
that is free, or in the one that was used least recently.

## Layout

- `src/` is the library: every decision that `rpool` takes, verified with
  [Verus](https://github.com/verus-lang/verus).
- `app/` is the program: the command line, the files, and the runs of `git`, `curl`
  and the shell. It hands the library what it found, and the names of the files that
  clones share, and does what the library says.
- `tests/` runs the library.

Paths follow the rules of Unix.

## The library

| module | what it decides |
| --- | --- |
| `text`, `path`, `names` | text, paths as text, and the names that pools and clones may bear |
| `table`, `search`, `model` | the records: pools, clones, remembered branches |
| `resolve` | which pool and which clone a command is about |
| `selection` | which clone is handed out next |
| `checkout` | a checkout, step by step |
| `devconfig` | which clone development configuration is copied from |
| `doctor` | what is wrong with the records, and what can be put right |
| `init`, `newclone`, `migrate` | setting up pools, adding clones, moving clones |
| `clones` | dropping, pinning, finding clones, removing pools |
| `status`, `complete`, `shell` | what is shown, and what the shell completes |
| `git`, `sync`, `json`, `pr` | what `git` and GitHub are asked, and what they answer |
| `command` | which commands need the records to themselves |

Each type has a view, a mathematical value that the contracts speak of: a table is a
sequence of names with values, a text a sequence of characters, a checkout under way
a record with the step to take next. Functions named `law_..` state what holds of the
library as a whole, such as that a clone is handed out only if no cleaner one comes
before it, or that a second look after a repair finds nothing left to repair.

## Trust

The outside functions that the library relies on without proof stand in `text`
(`String::push`, `String::from_utf8`) and `json` (`serde_json`).

## A checkout

A checkout runs as a loop around the library:

```rust
let mut c = Checkout::branch(state, pool, branch, no_submodules);
loop {
    let event = perform(c.step());
    c = c.advance(event);
}
```
