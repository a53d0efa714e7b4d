//! What `git` is asked, and what its answers mean.

use vstd::prelude::*;
use vstd::utf8::{decode_utf8, valid_utf8};

use crate::text::{join_texts, lines, same_text, strip_prefix, trim, utf8_text};
use crate::text::{joined, lines_of, texts, trimmed, utf8_complaint};

verus! {

/// `git fetch origin`.
pub open spec fn fetch_words() -> Seq<Seq<char>> {
    seq!["fetch"@, "origin"@]
}

/// `git fetch origin`.
pub fn fetch_args() -> (r: Vec<String>)
    ensures
        texts(r@) == fetch_words(),
{
    let r = vec!["fetch".to_owned(), "origin".to_owned()];
    assert(texts(r@) =~= fetch_words());
    r
}

/// `git fetch --all --prune`.
pub open spec fn fetch_all_words() -> Seq<Seq<char>> {
    seq!["fetch"@, "--all"@, "--prune"@]
}

/// `git fetch --all --prune`.
pub fn fetch_all_args() -> (r: Vec<String>)
    ensures
        texts(r@) == fetch_all_words(),
{
    let r = vec!["fetch".to_owned(), "--all".to_owned(), "--prune".to_owned()];
    assert(texts(r@) =~= fetch_all_words());
    r
}

/// `git fetch origin <refspec>`.
pub open spec fn fetch_ref_words(refspec: Seq<char>) -> Seq<Seq<char>> {
    seq!["fetch"@, "origin"@, refspec]
}

/// `git fetch origin <refspec>`.
pub fn fetch_ref_args(refspec: &str) -> (r: Vec<String>)
    ensures
        texts(r@) == fetch_ref_words(refspec@),
{
    let r = vec!["fetch".to_owned(), "origin".to_owned(), refspec.to_owned()];
    assert(texts(r@) =~= fetch_ref_words(refspec@));
    r
}

/// `git pull --ff-only`.
pub open spec fn pull_words() -> Seq<Seq<char>> {
    seq!["pull"@, "--ff-only"@]
}

/// `git pull --ff-only`.
pub fn pull_args() -> (r: Vec<String>)
    ensures
        texts(r@) == pull_words(),
{
    let r = vec!["pull".to_owned(), "--ff-only".to_owned()];
    assert(texts(r@) =~= pull_words());
    r
}

/// `git submodule update --init --recursive`.
pub open spec fn submodule_words() -> Seq<Seq<char>> {
    seq!["submodule"@, "update"@, "--init"@, "--recursive"@]
}

/// `git submodule update --init --recursive`.
pub fn submodule_args() -> (r: Vec<String>)
    ensures
        texts(r@) == submodule_words(),
{
    let r = vec![
        "submodule".to_owned(),
        "update".to_owned(),
        "--init".to_owned(),
        "--recursive".to_owned(),
    ];
    assert(texts(r@) =~= submodule_words());
    r
}

/// `git checkout <branch>`.
pub open spec fn checkout_words(branch: Seq<char>) -> Seq<Seq<char>> {
    seq!["checkout"@, branch]
}

/// `git checkout <branch>`.
pub fn checkout_args(branch: &str) -> (r: Vec<String>)
    ensures
        texts(r@) == checkout_words(branch@),
{
    let r = vec!["checkout".to_owned(), branch.to_owned()];
    assert(texts(r@) =~= checkout_words(branch@));
    r
}

/// `git checkout -b <branch> origin/<branch>`.
pub open spec fn create_words(branch: Seq<char>) -> Seq<Seq<char>> {
    seq!["checkout"@, "-b"@, branch, "origin/"@ + branch]
}

/// `git checkout -b <branch> origin/<branch>`.
pub fn create_args(branch: &str) -> (r: Vec<String>)
    ensures
        texts(r@) == create_words(branch@),
{
    let mut remote = "origin/".to_owned();
    remote.append(branch);
    let r = vec!["checkout".to_owned(), "-b".to_owned(), branch.to_owned(), remote];
    assert(texts(r@) =~= create_words(branch@));
    r
}

/// `git clone [--reference <clone>] <url> <path>`.
pub open spec fn clone_words(
    reference: Option<Seq<char>>,
    url: Seq<char>,
    path: Seq<char>,
) -> Seq<Seq<char>> {
    match reference {
        Some(r) => seq!["clone"@, "--reference"@, r, url, path],
        None => seq!["clone"@, url, path],
    }
}

/// `git clone [--reference <clone>] <url> <path>`.
pub fn clone_args(reference: Option<&str>, url: &str, path: &str) -> (r: Vec<String>)
    ensures
        texts(r@) == clone_words(crate::text::opt_str(reference), url@, path@),
{
    let r = match reference {
        Some(known) => vec![
            "clone".to_owned(),
            "--reference".to_owned(),
            known.to_owned(),
            url.to_owned(),
            path.to_owned(),
        ],
        None => vec!["clone".to_owned(), url.to_owned(), path.to_owned()],
    };
    assert(texts(r@) =~= clone_words(crate::text::opt_str(reference), url@, path@));
    r
}

/// `git remote get-url origin`: where a clone comes from.
pub open spec fn remote_url_words() -> Seq<Seq<char>> {
    seq!["remote"@, "get-url"@, "origin"@]
}

/// `git remote get-url origin`: where a clone comes from.
pub fn remote_url_args() -> (r: Vec<String>)
    ensures
        texts(r@) == remote_url_words(),
{
    let r = vec![
        "remote".to_owned(),
        "get-url".to_owned(),
        "origin".to_owned(),
    ];
    assert(texts(r@) =~= remote_url_words());
    r
}

/// `git rev-parse --abbrev-ref HEAD`: the branch that a clone is on.
pub open spec fn head_branch_words() -> Seq<Seq<char>> {
    seq!["rev-parse"@, "--abbrev-ref"@, "HEAD"@]
}

/// `git rev-parse --abbrev-ref HEAD`: the branch that a clone is on.
pub fn head_branch_args() -> (r: Vec<String>)
    ensures
        texts(r@) == head_branch_words(),
{
    let r = vec![
        "rev-parse".to_owned(),
        "--abbrev-ref".to_owned(),
        "HEAD".to_owned(),
    ];
    assert(texts(r@) =~= head_branch_words());
    r
}

/// `git status --porcelain`: the uncommitted changes of a clone.
pub open spec fn status_words() -> Seq<Seq<char>> {
    seq!["status"@, "--porcelain"@]
}

/// `git status --porcelain`: the uncommitted changes of a clone.
pub fn status_args() -> (r: Vec<String>)
    ensures
        texts(r@) == status_words(),
{
    let r = vec![
        "status".to_owned(),
        "--porcelain".to_owned(),
    ];
    assert(texts(r@) =~= status_words());
    r
}

/// `git branch -r --format=%(refname:short)`: the remote branches, one on each line.
pub open spec fn remote_branch_list_words() -> Seq<Seq<char>> {
    seq!["branch"@, "-r"@, "--format=%(refname:short)"@]
}

/// `git branch -r --format=%(refname:short)`: the remote branches, one on each line.
pub fn remote_branch_list_args() -> (r: Vec<String>)
    ensures
        texts(r@) == remote_branch_list_words(),
{
    let r = vec![
        "branch".to_owned(),
        "-r".to_owned(),
        "--format=%(refname:short)".to_owned(),
    ];
    assert(texts(r@) =~= remote_branch_list_words());
    r
}

/// `git branch --format=%(refname:short)`: the branches of a clone, one on each line.
pub open spec fn branch_list_words() -> Seq<Seq<char>> {
    seq!["branch"@, "--format=%(refname:short)"@]
}

/// `git branch --format=%(refname:short)`: the branches of a clone, one on each line.
pub fn branch_list_args() -> (r: Vec<String>)
    ensures
        texts(r@) == branch_list_words(),
{
    let r = vec![
        "branch".to_owned(),
        "--format=%(refname:short)".to_owned(),
    ];
    assert(texts(r@) =~= branch_list_words());
    r
}

/// What is said of a `git` command that failed.
pub open spec fn failure_text(args: Seq<Seq<char>>) -> Seq<char> {
    "git "@ + joined(args, " "@) + " failed"@
}

/// A `git` command that is run for what it does: whether it did it.
pub fn run_git(args: &Vec<String>, success: bool) -> (r: Result<(), String>)
    ensures
        r is Ok == success,
        r matches Err(e) ==> e@ == failure_text(texts(args@)),
{
    if success {
        return Ok(());
    }
    let mut e = "git ".to_owned();
    e.append(join_texts(args, " ").as_str());
    e.append(" failed");
    Err(e)
}

/// A `git` command that is run for what it prints: its output without the white
/// space around it. It fails where the command fails, and where the output is not
/// UTF-8.
pub fn run_git_output(args: &Vec<String>, success: bool, stdout: Vec<u8>, stderr: &str) -> (r:
    Result<String, String>)
    ensures
        r is Ok == (success && valid_utf8(stdout@)),
        r matches Ok(t) ==> t@ == trimmed(decode_utf8(stdout@)),
        !success ==> (r matches Err(e) && e@ == failure_text(texts(args@)) + ": "@ + stderr@),
        success ==> (r matches Err(e) ==> e@ == utf8_complaint(stdout@)),
{
    if !success {
        let mut e = "git ".to_owned();
        e.append(join_texts(args, " ").as_str());
        e.append(" failed");
        e.append(": ");
        e.append(stderr);
        return Err(e);
    }
    match utf8_text(stdout) {
        Ok(t) => Ok(trim(t.as_str())),
        Err(e) => Err(e),
    }
}

/// The URL that `git remote get-url origin` printed.
pub fn get_remote_url(success: bool, stdout: Vec<u8>) -> (r: Result<String, String>)
    ensures
        r is Ok == (success && valid_utf8(stdout@)),
        r matches Ok(t) ==> t@ == trimmed(decode_utf8(stdout@)),
        !success ==> (r matches Err(e) && e@ == "Failed to get remote URL"@),
        success ==> (r matches Err(e) ==> e@ == utf8_complaint(stdout@)),
{
    if !success {
        return Err("Failed to get remote URL".to_owned());
    }
    match utf8_text(stdout) {
        Ok(t) => Ok(trim(t.as_str())),
        Err(e) => Err(e),
    }
}

/// Whether `git status --porcelain` printed any change of the clone at `path`.
pub fn has_uncommitted_changes(path: &str, success: bool, stdout: &Vec<u8>, stderr: &str) -> (r:
    Result<bool, String>)
    ensures
        success ==> r == Ok::<bool, String>(stdout@.len() > 0),
        !success ==> (r matches Err(e) && e@ == "git status failed in "@ + path@ + ": "@ + stderr@),
{
    if !success {
        let mut e = "git status failed in ".to_owned();
        e.append(path);
        e.append(": ");
        e.append(stderr);
        return Err(e);
    }
    Ok(!stdout.is_empty())
}

/// The branch that a line of `git branch -r` names: what follows `origin/`, unless
/// that is `HEAD`.
pub open spec fn remote_branch(line: Seq<char>) -> Option<Seq<char>> {
    if "origin/"@.is_prefix_of(line) && line.skip("origin/"@.len() as int) != "HEAD"@ {
        Some(line.skip("origin/"@.len() as int))
    } else {
        None
    }
}

/// The branches that the output of `git branch -r` names, in order.
pub open spec fn remote_branches(output: Seq<char>) -> Seq<Seq<char>> {
    lines_of(output).filter_map(|line: Seq<char>| remote_branch(line))
}

/// The branches of the remote repository, from the output of
/// `git branch -r --format=%(refname:short)`.
pub fn collect_remote_branches(output: &str) -> (r: Vec<String>)
    ensures
        texts(r@) == remote_branches(output@),
        forall|name: Seq<char>| #[trigger]
            texts(r@).contains(name) <==> lines_of(output@).contains("origin/"@ + name) && name
                != "HEAD"@,
{
    let all = lines(output);
    let ghost found = lines_of(output@);
    let ghost f = |line: Seq<char>| remote_branch(line);
    let mut r: Vec<String> = Vec::new();
    proof {
        reveal(Seq::filter_map);
        assert(found.take(0) =~= Seq::empty());
        assert(texts(r@) =~= found.take(0).filter_map(f));
    }
    for i in 0..all.len()
        invariant
            texts(all@) == found,
            f == (|line: Seq<char>| remote_branch(line)),
            texts(r@) == found.take(i as int).filter_map(f),
    {
        let line = all[i].as_str();
        assert(line@ == found[i as int]);
        let ghost was = r@;
        proof {
            found.lemma_filter_map_take_succ(f, i as int);
        }
        if let Some(rest) = strip_prefix(line, "origin/") {
            if !same_text(rest.as_str(), "HEAD") {
                let ghost name = rest@;
                r.push(rest);
                assert(texts(r@) =~= texts(was).push(name));
                assert(f(found[i as int]) == Some(name));
            }
        }
        assert(texts(r@) =~= found.take(i + 1).filter_map(f));
    }
    assert(found.take(all@.len() as int) =~= found);
    proof {
        let at = law_collected_exactly(output@);
        assert forall|name: Seq<char>| #[trigger]
            texts(r@).contains(name) <==> lines_of(output@).contains("origin/"@ + name) && name
                != "HEAD"@ by {
            if texts(r@).contains(name) {
                let i = texts(r@).index_of(name);
                assert(found[at[i]] == "origin/"@ + name);
            }
            if lines_of(output@).contains("origin/"@ + name) && name != "HEAD"@ {
                let k = found.index_of("origin/"@ + name);
                assert(at.contains(k));
                let i = at.index_of(k);
                assert(("origin/"@ + name).skip("origin/"@.len() as int) =~= name);
                assert(("origin/"@ + texts(r@)[i]).skip("origin/"@.len() as int) =~= texts(r@)[i]);
                assert(found[at[i]] == "origin/"@ + texts(r@)[i]);
                assert(texts(r@)[i] == name);
            }
        }
    }
    r
}

/// No collected branch is `HEAD`, and each stands with `origin/` before it on a
/// line of the output.
pub proof fn law_collected_branches(output: Seq<char>, i: int)
    requires
        0 <= i < remote_branches(output).len(),
    ensures
        remote_branches(output)[i] != "HEAD"@,
        lines_of(output).contains("origin/"@ + remote_branches(output)[i]),
{
    let f = |line: Seq<char>| remote_branch(line);
    let b = remote_branches(output)[i];
    assert(lines_of(output).filter_map(f).contains(b));
    lines_of(output).lemma_filter_map_contains(f, b);
    let line = choose|line: Seq<char>|
        #[trigger] lines_of(output).contains(line) && f(line) == Some(b);
    assert(line =~= "origin/"@ + b);
}

/// Which branches are collected: one for each line that is `origin/` and a name other
/// than `HEAD`, in the order of the lines. `at` says where the line of each stands; a
/// line that stands nowhere among these names no branch.
pub proof fn law_collected_exactly(output: Seq<char>) -> (at: Seq<int>)
    ensures
        at.len() == remote_branches(output).len(),
        forall|i: int| 0 <= i < at.len() ==> 0 <= #[trigger] at[i] < lines_of(output).len(),
        forall|i: int, j: int| 0 <= i < j < at.len() ==> #[trigger] at[i] < #[trigger] at[j],
        forall|i: int|
            0 <= i < at.len() ==> lines_of(output)[#[trigger] at[i]] == "origin/"@
                + remote_branches(output)[i] && remote_branches(output)[i] != "HEAD"@,
        forall|k: int, name: Seq<char>|
            0 <= k < lines_of(output).len() && #[trigger] lines_of(output)[k] == #[trigger] (
            "origin/"@ + name) && name != "HEAD"@ ==> at.contains(k),
{
    let lines = lines_of(output);
    let at = lemma_collected(lines, lines.len() as int);
    let f = |line: Seq<char>| remote_branch(line);
    assert(lines.take(lines.len() as int) =~= lines);
    at
}

proof fn lemma_collected(lines: Seq<Seq<char>>, n: int) -> (at: Seq<int>)
    requires
        0 <= n <= lines.len(),
    ensures
        ({
            let found = lines.take(n).filter_map(|line: Seq<char>| remote_branch(line));
            &&& at.len() == found.len()
            &&& forall|i: int| 0 <= i < at.len() ==> 0 <= #[trigger] at[i] < n
            &&& forall|i: int, j: int|
                0 <= i < j < at.len() ==> #[trigger] at[i] < #[trigger] at[j]
            &&& forall|i: int|
                0 <= i < at.len() ==> lines[#[trigger] at[i]] == "origin/"@ + found[i] && found[i]
                    != "HEAD"@
            &&& forall|k: int, name: Seq<char>|
                0 <= k < n && #[trigger] lines[k] == #[trigger] ("origin/"@ + name) && name
                    != "HEAD"@ ==> at.contains(k)
        }),
    decreases n,
{
    let f = |line: Seq<char>| remote_branch(line);
    let head = "origin/"@;
    if n == 0 {
        reveal(Seq::filter_map);
        assert(lines.take(0) =~= Seq::empty());
        Seq::empty()
    } else {
        let before = lemma_collected(lines, n - 1);
        let line = lines[n - 1];
        let found = lines.take(n - 1).filter_map(f);
        lines.lemma_filter_map_take_succ(f, n - 1);
        assert forall|name: Seq<char>| line == #[trigger] (head + name) implies line.skip(
            head.len() as int,
        ) == name && head.is_prefix_of(line) by {
            assert((head + name).skip(head.len() as int) =~= name);
        }
        match remote_branch(line) {
            Some(b) => {
                assert(line =~= head + b);
                let at = before.push(n - 1);
                assert(lines.take(n).filter_map(f) =~= found.push(b));
                assert forall|k: int, name: Seq<char>|
                    0 <= k < n && #[trigger] lines[k] == #[trigger] (head + name) && name
                        != "HEAD"@ implies at.contains(k) by {
                    if k < n - 1 {
                        assert(before.contains(k));
                        let i = choose|i: int| 0 <= i < before.len() && before[i] == k;
                        assert(at[i] == k);
                    } else {
                        assert(at[before.len() as int] == k);
                    }
                }
                at
            },
            None => {
                assert(lines.take(n).filter_map(f) =~= found);
                before
            },
        }
    }
}

/// The words of the commands, whatever the branch, the reference, the URL and the path
/// are.
pub proof fn law_git_words(
    branch: Seq<char>,
    refspec: Seq<char>,
    reference: Seq<char>,
    url: Seq<char>,
    path: Seq<char>,
)
    ensures
        fetch_words() == seq!["fetch"@, "origin"@],
        fetch_all_words() == seq!["fetch"@, "--all"@, "--prune"@],
        fetch_ref_words(refspec) == seq!["fetch"@, "origin"@, refspec],
        pull_words() == seq!["pull"@, "--ff-only"@],
        submodule_words() == seq!["submodule"@, "update"@, "--init"@, "--recursive"@],
        checkout_words(branch) == seq!["checkout"@, branch],
        create_words(branch) == seq!["checkout"@, "-b"@, branch, "origin/"@ + branch],
        clone_words(None, url, path) == seq!["clone"@, url, path],
        clone_words(Some(reference), url, path) == seq![
            "clone"@,
            "--reference"@,
            reference,
            url,
            path,
        ],
        remote_url_words() == seq!["remote"@, "get-url"@, "origin"@],
        head_branch_words() == seq!["rev-parse"@, "--abbrev-ref"@, "HEAD"@],
        status_words() == seq!["status"@, "--porcelain"@],
        remote_branch_list_words() == seq!["branch"@, "-r"@, "--format=%(refname:short)"@],
        branch_list_words() == seq!["branch"@, "--format=%(refname:short)"@],
{
}

/// What is said of a command that failed holds all its words, each after a blank.
pub proof fn law_failure_words(args: Seq<Seq<char>>, word: Seq<char>)
    ensures
        failure_text(seq![word]) == "git "@ + word + " failed"@,
        args.len() > 0 ==> failure_text(args.push(word)) == "git "@ + joined(args, " "@) + " "@
            + word + " failed"@,
{
    crate::text::law_joined(args, word, " "@);
    if args.len() > 0 {
        assert(failure_text(args.push(word)) =~= "git "@ + joined(args, " "@) + " "@ + word
            + " failed"@);
    }
}

} // verus!
