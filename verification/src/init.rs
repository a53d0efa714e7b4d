//! Setting up a pool, and registering the clones that are already there.

use vstd::prelude::*;

use crate::model::{
    clones_of, default_build_command, enter_pool, law_put_clones, lemma_clones_unique, pool_dir,
    pool_place, state_ok, CloneState, CloneView, Config, ConfigView, PoolConfig, PoolConfigView,
    PoolState, State, Timestamp,
};
use crate::names::{name_fault, reported, valid_name, NameFault};
use crate::path::{file_name, file_name_of};
use crate::table::{holds, law_put, lemma_place, lookup, put, unique, Entries};
use crate::text::{copy_opt, decimal, decimal_of, is_text, opt_str, opt_text};
use crate::text::{ends_with, lemma_split_around, lemma_split_pieces, lemma_split_whole, split};
use crate::text::{split_text, strip_ends, strip_prefix, texts, without_ends};

verus! {

/// The name of a pool that was given none: what follows the last `/` of the
/// repository's URL, without `.git` at the end.
pub open spec fn name_from_url(url: Seq<char>) -> Seq<char> {
    without_ends(split(url, '/').last(), ".git"@)
}

/// The name of a pool that was given none.
pub fn default_pool_name(url: &str) -> (r: String)
    ensures
        r@ == name_from_url(url@),
{
    let pieces = split_text(url, '/');
    proof {
        lemma_split_pieces(url@, '/');
    }
    let last = pieces.len() - 1;
    assert(texts(pieces@)[last as int] == pieces@[last as int]@);
    strip_ends(pieces[last].as_str(), ".git")
}

/// The `owner/repo` that a URL names at GitHub, over SSH or HTTPS.
pub open spec fn github_repo_of(url: Seq<char>) -> Option<Seq<char>> {
    if "git@github.com:"@.is_prefix_of(url) {
        Some(without_ends(url.skip("git@github.com:"@.len() as int), ".git"@))
    } else if "https://github.com/"@.is_prefix_of(url) {
        Some(without_ends(url.skip("https://github.com/"@.len() as int), ".git"@))
    } else {
        None
    }
}

/// The `owner/repo` that a URL names at GitHub, over SSH or HTTPS.
pub fn extract_github_repo(url: &str) -> (r: Option<String>)
    ensures
        opt_text(r) == github_repo_of(url@),
{
    if let Some(rest) = strip_prefix(url, "git@github.com:") {
        return Some(strip_ends(rest.as_str(), ".git"));
    }
    if let Some(rest) = strip_prefix(url, "https://github.com/") {
        return Some(strip_ends(rest.as_str(), ".git"));
    }
    None
}

/// Why a pool is not set up.
#[derive(Clone, Copy, Debug, PartialEq, Eq, Structural)]
pub enum InitError {
    /// The pool cannot bear its name.
    BadName(NameFault),
    /// There is a pool of this name.
    AlreadyExists,
}

impl InitError {
    /// What the user is told.
    pub open spec fn text(self, name: Seq<char>) -> Seq<char> {
        match self {
            InitError::BadName(fault) => fault.text(name, "Pool"@),
            InitError::AlreadyExists => "Pool '"@ + name + "' already exists"@,
        }
    }

    /// What the user is told.
    pub fn message(&self, name: &str) -> (r: String)
        ensures
            r@ == self.text(name@),
    {
        match self {
            InitError::BadName(fault) => fault.message(name, "Pool"),
            InitError::AlreadyExists => {
                let mut r = "Pool '".to_owned();
                r.append(name);
                r.append("' already exists");
                r
            },
        }
    }
}

/// How a new pool is set up.
pub open spec fn new_pool(url: Seq<char>, build: Option<Seq<char>>) -> PoolConfigView {
    PoolConfigView {
        repo_url: url,
        github_repo: github_repo_of(url),
        build_command: match build {
            Some(b) => b,
            None => "cargo build"@,
        },
    }
}

/// The name of a new pool: the one that was asked for, or the one that its URL
/// gives.
pub open spec fn new_pool_name(url: Seq<char>, name: Option<Seq<char>>) -> Seq<char> {
    match name {
        Some(n) => n,
        None => name_from_url(url),
    }
}

/// The name of a new pool.
pub fn pool_name_for(url: &str, name: Option<&str>) -> (r: String)
    ensures
        r@ == new_pool_name(url@, opt_str(name)),
{
    match name {
        Some(n) => n.to_owned(),
        None => default_pool_name(url),
    }
}

/// The configuration with a new pool in it.
pub open spec fn with_pool(
    config: ConfigView,
    name: Seq<char>,
    url: Seq<char>,
    root: Option<Seq<char>>,
    build: Option<Seq<char>>,
) -> ConfigView {
    ConfigView {
        root: match root {
            Some(r) => r,
            None => config.root,
        },
        pools: put(config.pools, name, new_pool(url, build)),
    }
}

/// Sets a pool up, unless it cannot bear its name or there is one of that name.
pub fn set_up_pool(
    config: &mut Config,
    name: &str,
    repo_url: &str,
    clones_root: Option<&str>,
    build_command: Option<&str>,
) -> (r: Result<(), InitError>)
    ensures
        r is Ok == (valid_name(name@) && !holds(old(config)@.pools, name@)),
        r is Ok ==> final(config)@ == with_pool(
            old(config)@,
            name@,
            repo_url@,
            opt_str(clones_root),
            opt_str(build_command),
        ),
        r is Err ==> final(config)@ == old(config)@,
        r matches Err(InitError::BadName(fault)) ==> reported(name@, fault),
        r matches Err(InitError::AlreadyExists) ==> valid_name(name@) && holds(
            old(config)@.pools,
            name@,
        ),
{
    if let Some(fault) = name_fault(name) {
        proof {
            crate::names::law_one_fault(name@, fault, fault);
        }
        return Err(InitError::BadName(fault));
    }
    if config.pools.contains(name) {
        return Err(InitError::AlreadyExists);
    }
    if let Some(root) = clones_root {
        config.clones_root = root.to_owned();
    }
    let build_command = match build_command {
        Some(b) => b.to_owned(),
        None => default_build_command(),
    };
    let pool = PoolConfig {
        repo_url: repo_url.to_owned(),
        github_repo: extract_github_repo(repo_url),
        build_command,
    };
    config.pools.insert(name.to_owned(), pool);
    Ok(())
}

/// A repository that was come across.
pub struct FoundRepo {
    /// Where it is.
    pub path: String,
    /// Where it was cloned from, if that can be told.
    pub url: Option<String>,
    /// The branch that it is on, if that can be told.
    pub branch: Option<String>,
    /// When it was come across.
    pub seen: Timestamp,
    /// Whether it is the current directory.
    pub current: bool,
}

/// What a [`FoundRepo`] says.
pub struct FoundRepoView {
    pub path: Seq<char>,
    pub url: Option<Seq<char>>,
    pub branch: Option<Seq<char>>,
    pub seen: Timestamp,
    pub current: bool,
}

impl View for FoundRepo {
    type V = FoundRepoView;

    open spec fn view(&self) -> FoundRepoView {
        FoundRepoView {
            path: self.path@,
            url: opt_text(self.url),
            branch: opt_text(self.branch),
            seen: self.seen,
            current: self.current,
        }
    }
}

/// What was come across, in order.
pub open spec fn repos_of(v: Seq<FoundRepo>) -> Seq<FoundRepoView> {
    v.map_values(|f: FoundRepo| f@)
}

/// The name that a repository is registered under.
pub open spec fn repo_name(repo: FoundRepoView) -> Seq<char> {
    file_name_of(repo.path)->0
}

/// A repository is registered if it comes from where the pool's clones come from
/// and no clone bears its name.
pub open spec fn registrable(
    clones: Entries<CloneView>,
    repo: FoundRepoView,
    url: Seq<char>,
) -> bool {
    repo.url == Some(url) && !holds(clones, repo_name(repo))
}

/// The record of a newly registered clone.
pub open spec fn fresh_clone(repo: FoundRepoView) -> CloneView {
    CloneView { path: repo.path, branch: repo.branch, last_used: repo.seen, pinned: false }
}

/// The clones of a pool after the first `n` repositories were looked at in order.
pub open spec fn registered(
    clones: Entries<CloneView>,
    repos: Seq<FoundRepoView>,
    url: Seq<char>,
    n: int,
) -> Entries<CloneView>
    decreases n,
{
    if n <= 0 {
        clones
    } else {
        let before = registered(clones, repos, url, n - 1);
        let repo = repos[n - 1];
        if registrable(before, repo, url) {
            before.push((repo_name(repo), fresh_clone(repo)))
        } else {
            before
        }
    }
}

/// What the user is told of the first `n` repositories.
pub open spec fn register_lines(
    clones: Entries<CloneView>,
    repos: Seq<FoundRepoView>,
    url: Seq<char>,
    n: int,
) -> Seq<Seq<char>>
    decreases n,
{
    if n <= 0 {
        Seq::empty()
    } else {
        let before = register_lines(clones, repos, url, n - 1);
        let repo = repos[n - 1];
        if registrable(registered(clones, repos, url, n - 1), repo, url) {
            before.push(
                if repo.current {
                    "  Registered current repo as clone: "@ + repo_name(repo)
                } else {
                    "  Found existing clone: "@ + repo_name(repo)
                },
            )
        } else {
            before
        }
    }
}

/// Every repository that may be registered has a name to register it under.
pub open spec fn repos_named(repos: Seq<FoundRepoView>, url: Seq<char>) -> bool {
    forall|i: int|
        0 <= i < repos.len() && (#[trigger] repos[i]).url == Some(url) ==> file_name_of(
            repos[i].path,
        ) is Some
}

fn register_clones(pool: &mut PoolState, repos: &Vec<FoundRepo>, url: &str) -> (r: Vec<String>)
    requires
        repos_named(repos_of(repos@), url@),
    ensures
        final(pool)@ == registered(old(pool)@, repos_of(repos@), url@, repos@.len() as int),
        texts(r@) == register_lines(old(pool)@, repos_of(repos@), url@, repos@.len() as int),
{
    let ghost was = pool@;
    let ghost all = repos_of(repos@);
    let mut lines: Vec<String> = Vec::new();
    assert(texts(lines@) =~= Seq::empty());
    for i in 0..repos.len()
        invariant
            all == repos_of(repos@),
            repos_named(all, url@),
            pool@ == registered(was, all, url@, i as int),
            texts(lines@) == register_lines(was, all, url@, i as int),
    {
        let repo = &repos[i];
        assert(all[i as int] == repo@);
        if is_text(&repo.url, url) {
            if let Some(name) = file_name(repo.path.as_str()) {
                if !pool.clones.contains(name.as_str()) {
                    let ghost before = lines@;
                    let ghost said = if repo.current {
                        "  Registered current repo as clone: "@ + name@
                    } else {
                        "  Found existing clone: "@ + name@
                    };
                    let mut line = if repo.current {
                        "  Registered current repo as clone: ".to_owned()
                    } else {
                        "  Found existing clone: ".to_owned()
                    };
                    line.append(name.as_str());
                    lines.push(line);
                    assert(texts(lines@) =~= texts(before).push(said));
                    let fresh = CloneState {
                        path: repo.path.clone(),
                        assigned_branch: copy_opt(&repo.branch),
                        last_used: repo.seen,
                        pinned: false,
                    };
                    proof {
                        lemma_place(pool@, name@);
                    }
                    pool.clones.insert(name, fresh);
                }
            }
        }
    }
    lines
}

/// Registers the repositories that were come across as clones of a pool, and gives
/// what the user is told of them.
pub fn register(state: &mut State, pool: &str, repo_url: &str, repos: &Vec<FoundRepo>) -> (r: Vec<
    String,
>)
    requires
        repos_named(repos_of(repos@), repo_url@),
    ensures
        final(state)@ == put(
            old(state)@,
            pool@,
            registered(
                clones_of(old(state)@, pool@),
                repos_of(repos@),
                repo_url@,
                repos@.len() as int,
            ),
        ),
        texts(r@) == register_lines(
            clones_of(old(state)@, pool@),
            repos_of(repos@),
            repo_url@,
            repos@.len() as int,
        ),
        state_ok(old(state)@) ==> state_ok(final(state)@),
{
    let ghost was = state@;
    proof {
        lemma_place(was, pool@);
    }
    let at = enter_pool(state, pool);
    let lines = register_clones(state.pools.value_mut(at), repos, repo_url);
    assert(state@ =~= put(
        was,
        pool@,
        registered(clones_of(was, pool@), repos_of(repos@), repo_url@, repos@.len() as int),
    ));
    proof {
        if state_ok(was) {
            let clones = clones_of(was, pool@);
            lemma_clones_unique(was, pool@);
            law_registered(
                clones,
                repos_of(repos@),
                repo_url@,
                repos@.len() as int,
                pool@,
            );
            law_put_clones(
                was,
                pool@,
                registered(clones, repos_of(repos@), repo_url@, repos@.len() as int),
            );
        }
    }
    lines
}

/// What the user is told of a pool that was set up.
pub open spec fn init_lines(config: ConfigView, name: Seq<char>, count: nat) -> Seq<Seq<char>> {
    let pool = lookup(config.pools, name)->0;
    seq![
        "Initialized pool '"@ + name + "'"@,
        "  Clones root: "@ + config.root,
        "  Pool directory: "@ + pool_place(config, name),
    ] + (match pool.github_repo {
        Some(repo) => seq!["  GitHub repo: "@ + repo],
        None => Seq::empty(),
    }) + seq![
        "  Build command: "@ + pool.build_command,
        "  Clones found: "@ + decimal_of(count),
    ]
}

/// What the user is told of a pool that was set up.
pub fn init_summary(config: &Config, name: &str, count: usize) -> (r: Vec<String>)
    requires
        holds(config@.pools, name@),
    ensures
        texts(r@) == init_lines(config@, name@, count as nat),
{
    let mut first = "Initialized pool '".to_owned();
    first.append(name);
    first.append("'");
    let mut root = "  Clones root: ".to_owned();
    root.append(config.clones_root.as_str());
    let mut dir = "  Pool directory: ".to_owned();
    dir.append(pool_dir(config, name).as_str());
    let mut r = vec![first, root, dir];
    proof {
        lemma_place(config@.pools, name@);
    }
    if let Some(pool) = config.pools.get(name) {
        if let Some(repo) = &pool.github_repo {
            let mut line = "  GitHub repo: ".to_owned();
            line.append(repo.as_str());
            r.push(line);
        }
        let mut build = "  Build command: ".to_owned();
        build.append(pool.build_command.as_str());
        r.push(build);
    }
    let mut found = "  Clones found: ".to_owned();
    found.append(decimal(count as u128).as_str());
    r.push(found);
    assert(texts(r@) =~= init_lines(config@, name@, count as nat));
    r
}

// ---------------------------------------------------------------------------
// What holds of setting up
// ---------------------------------------------------------------------------

/// A pool that was set up is there with what was asked for, every other pool is as
/// it was, and the same name cannot be set up again.
pub proof fn law_new_pool(
    config: ConfigView,
    name: Seq<char>,
    url: Seq<char>,
    root: Option<Seq<char>>,
    build: Option<Seq<char>>,
    other: Seq<char>,
)
    ensures
        ({
            let after = with_pool(config, name, url, root, build);
            &&& lookup(after.pools, name) == Some(new_pool(url, build))
            &&& holds(after.pools, name)
            &&& other != name ==> lookup(after.pools, other) == lookup(config.pools, other)
            &&& unique(config.pools) ==> unique(after.pools)
        }),
{
    law_put(config.pools, name, new_pool(url, build), other);
    law_put(config.pools, name, new_pool(url, build), name);
}

/// Registering keeps every clone that was there, registers every repository that
/// comes from the pool's URL unless its name is taken, and adds nothing else.
pub proof fn law_registered(
    clones: Entries<CloneView>,
    repos: Seq<FoundRepoView>,
    url: Seq<char>,
    n: int,
    name: Seq<char>,
)
    requires
        0 <= n <= repos.len(),
    ensures
        unique(clones) ==> unique(registered(clones, repos, url, n)),
        holds(clones, name) ==> lookup(registered(clones, repos, url, n), name) == lookup(
            clones,
            name,
        ),
        holds(registered(clones, repos, url, n), name) == (holds(clones, name) || exists|i: int|
            0 <= i < n && (#[trigger] repos[i]).url == Some(url) && repo_name(repos[i]) == name),
        !holds(clones, name) && holds(registered(clones, repos, url, n), name) ==> exists|i: int|
            0 <= i < n && (#[trigger] repos[i]).url == Some(url) && repo_name(repos[i]) == name
                && lookup(registered(clones, repos, url, n), name) == Some(fresh_clone(repos[i])),
    decreases n,
{
    lemma_place(clones, name);
    if n > 0 {
        law_registered(clones, repos, url, n - 1, name);
        let before = registered(clones, repos, url, n - 1);
        let repo = repos[n - 1];
        lemma_place(before, name);
        lemma_place(before, repo_name(repo));
        if registrable(before, repo, url) {
            law_put(before, repo_name(repo), fresh_clone(repo), name);
        }
        let after = registered(clones, repos, url, n);
        lemma_place(after, name);
        if !holds(clones, name) && holds(after, name) {
            if holds(before, name) {
                let i = choose|i: int|
                    0 <= i < n - 1 && (#[trigger] repos[i]).url == Some(url) && repo_name(repos[i])
                        == name && lookup(before, name) == Some(fresh_clone(repos[i]));
                assert(repos[i].url == Some(url));
                assert(lookup(after, name) == lookup(before, name));
            } else {
                assert(repos[n - 1].url == Some(url));
            }
        }
    }
}

proof fn lemma_without_ends(s: Seq<char>, end: Seq<char>)
    requires
        end.len() > 0,
        !ends_with(s, end),
    ensures
        without_ends(s, end) == s,
        without_ends(s + end, end) == s,
{
    let whole = s + end;
    assert(whole.skip(whole.len() - end.len()) =~= end);
    assert(whole.take(whole.len() - end.len()) =~= s);
}

/// The URLs of a repository at GitHub, over SSH and over HTTPS, with and without
/// `.git`, all name that repository.
pub proof fn law_github_urls(repo: Seq<char>)
    requires
        !ends_with(repo, ".git"@),
    ensures
        github_repo_of("git@github.com:"@ + repo) == Some(repo),
        github_repo_of("git@github.com:"@ + repo + ".git"@) == Some(repo),
        github_repo_of("https://github.com/"@ + repo) == Some(repo),
        github_repo_of("https://github.com/"@ + repo + ".git"@) == Some(repo),
{
    reveal_strlit(".git");
    reveal_strlit("git@github.com:");
    reveal_strlit("https://github.com/");
    lemma_without_ends(repo, ".git"@);
    let ssh = "git@github.com:"@;
    let web = "https://github.com/"@;
    assert((ssh + repo).skip(ssh.len() as int) =~= repo);
    assert((ssh + repo + ".git"@).skip(ssh.len() as int) =~= repo + ".git"@);
    assert((web + repo).skip(web.len() as int) =~= repo);
    assert((web + repo + ".git"@).skip(web.len() as int) =~= repo + ".git"@);
    assert((web + repo)[0] == 'h');
    assert((web + repo + ".git"@)[0] == 'h');
    assert(ssh[0] == 'g');
}

/// A pool without a name of its own is named like its repository, with or without
/// `.git` in the URL.
pub proof fn law_named_like_repository(base: Seq<char>, repo: Seq<char>)
    requires
        !repo.contains('/'),
        !ends_with(repo, ".git"@),
    ensures
        name_from_url(base.push('/') + repo) == repo,
        name_from_url(base.push('/') + repo + ".git"@) == repo,
{
    reveal_strlit(".git");
    lemma_without_ends(repo, ".git"@);
    lemma_split_around(base, repo, '/');
    lemma_split_whole(repo, '/');
    let long = repo + ".git"@;
    assert(!long.contains('/')) by {
        if long.contains('/') {
            let i = choose|i: int| 0 <= i < long.len() && long[i] == '/';
            if i < repo.len() {
                assert(repo[i] == '/');
            } else {
                assert(".git"@[i - repo.len()] == '/');
            }
        }
    }
    lemma_split_around(base, long, '/');
    lemma_split_whole(long, '/');
    assert(base.push('/') + long =~= base.push('/') + repo + ".git"@);
}

/// A URL that is neither of the two forms of GitHub names no repository there.
pub proof fn law_other_urls(url: Seq<char>)
    requires
        !"git@github.com:"@.is_prefix_of(url),
        !"https://github.com/"@.is_prefix_of(url),
    ensures
        github_repo_of(url) is None,
{
}

/// How a new pool is set up: from its URL, with the repository that the URL names, and
/// with the build command that was asked for or `cargo build`. The root of all clones
/// changes only where another was asked for. The name is the one that was asked for.
pub proof fn law_set_up(
    config: ConfigView,
    name: Seq<char>,
    url: Seq<char>,
    root: Seq<char>,
    build: Seq<char>,
)
    ensures
        new_pool(url, Some(build)) == (PoolConfigView {
            repo_url: url,
            github_repo: github_repo_of(url),
            build_command: build,
        }),
        new_pool(url, None) == (PoolConfigView {
            repo_url: url,
            github_repo: github_repo_of(url),
            build_command: "cargo build"@,
        }),
        with_pool(config, name, url, Some(root), Some(build)).root == root,
        with_pool(config, name, url, None, Some(build)).root == config.root,
        with_pool(config, name, url, Some(root), None).root == root,
        with_pool(config, name, url, None, None).root == config.root,
        with_pool(config, name, url, None, None).pools == put(
            config.pools,
            name,
            new_pool(url, None),
        ),
        with_pool(config, name, url, None, Some(build)).pools == put(
            config.pools,
            name,
            new_pool(url, Some(build)),
        ),
        new_pool_name(url, Some(name)) == name,
        new_pool_name(url, None) == name_from_url(url),
{
}

/// The record of a clone that is registered: it is where it was found, on the branch that
/// it was found on, used when it was found, and not pinned. A clone that was there, or
/// that an earlier repository of its name gave, is not replaced.
pub proof fn law_registered_record(
    clones: Entries<CloneView>,
    repos: Seq<FoundRepoView>,
    url: Seq<char>,
    n: int,
    i: int,
)
    requires
        0 <= i < n <= repos.len(),
        repos[i].url == Some(url),
        file_name_of(repos[i].path) is Some,
        !holds(clones, file_name_of(repos[i].path)->0),
        forall|k: int|
            0 <= k < i ==> (#[trigger] repos[k]).url != Some(url) || file_name_of(repos[k].path)
                != file_name_of(repos[i].path),
        forall|k: int|
            0 <= k < n && (#[trigger] repos[k]).url == Some(url) ==> file_name_of(repos[k].path)
                is Some,
    ensures
        lookup(registered(clones, repos, url, n), file_name_of(repos[i].path)->0) == Some(
            CloneView {
                path: repos[i].path,
                branch: repos[i].branch,
                last_used: repos[i].seen,
                pinned: false,
            },
        ),
    decreases n,
{
    let name = file_name_of(repos[i].path)->0;
    let before = registered(clones, repos, url, n - 1);
    law_registered(clones, repos, url, n - 1, name);
    lemma_place(before, name);
    if i == n - 1 {
        if holds(before, name) {
            let k = choose|k: int|
                0 <= k < n - 1 && (#[trigger] repos[k]).url == Some(url) && repo_name(repos[k])
                    == name;
            assert(file_name_of(repos[k].path) is Some);
        }
        law_put(before, name, fresh_clone(repos[i]), name);
    } else {
        law_registered_record(clones, repos, url, n - 1, i);
        let repo = repos[n - 1];
        if registrable(before, repo, url) {
            lemma_place(before, repo_name(repo));
            law_put(before, repo_name(repo), fresh_clone(repo), name);
        }
    }
}

/// A repository that is registered is told of, by the name that it is registered under;
/// no other is.
pub proof fn law_register_words(
    clones: Entries<CloneView>,
    repos: Seq<FoundRepoView>,
    url: Seq<char>,
    n: int,
)
    requires
        0 <= n < repos.len(),
    ensures
        ({
            let before = registered(clones, repos, url, n);
            let after = registered(clones, repos, url, n + 1);
            let said = register_lines(clones, repos, url, n);
            let says = register_lines(clones, repos, url, n + 1);
            let name = file_name_of(repos[n].path)->0;
            &&& after == before ==> says == said
            &&& after != before ==> says == said.push(
                if repos[n].current {
                    "  Registered current repo as clone: "@ + name
                } else {
                    "  Found existing clone: "@ + name
                },
            )
        }),
{
    let before = registered(clones, repos, url, n);
    let after = registered(clones, repos, url, n + 1);
    if registrable(before, repos[n], url) {
        assert(after.len() == before.len() + 1);
    }
}

/// What the user is told of a pool that was set up: its name, where its clones are, its
/// repository at GitHub if it has one, its build command, and how many clones it has.
pub proof fn law_init_words(config: ConfigView, name: Seq<char>, count: nat)
    ensures
        ({
            let pool = lookup(config.pools, name)->0;
            let start = seq![
                "Initialized pool '"@ + name + "'"@,
                "  Clones root: "@ + config.root,
                "  Pool directory: "@ + crate::path::join(config.root, name),
            ];
            let end = seq![
                "  Build command: "@ + pool.build_command,
                "  Clones found: "@ + decimal_of(count),
            ];
            &&& pool.github_repo is None ==> init_lines(config, name, count) == start + end
            &&& pool.github_repo matches Some(repo) ==> init_lines(config, name, count)
                == start.push("  GitHub repo: "@ + repo) + end
            &&& InitError::AlreadyExists.text(name) == "Pool '"@ + name + "' already exists"@
        }),
{
    let pool = lookup(config.pools, name)->0;
    let start = seq![
        "Initialized pool '"@ + name + "'"@,
        "  Clones root: "@ + config.root,
        "  Pool directory: "@ + crate::path::join(config.root, name),
    ];
    let end = seq![
        "  Build command: "@ + pool.build_command,
        "  Clones found: "@ + decimal_of(count),
    ];
    match pool.github_repo {
        None => {
            assert(init_lines(config, name, count) =~= start + end);
        },
        Some(repo) => {
            assert(init_lines(config, name, count) =~= start.push("  GitHub repo: "@ + repo) + end);
        },
    }
}

} // verus!
