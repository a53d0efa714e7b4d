//! What `rpool` keeps: the configured pools, the clones of each pool, and the
//! remembered branches.

use vstd::prelude::*;

use crate::path::{join, join_path};
use crate::table::{holds, law_put, lemma_place, lookup, place, put, unique, Entries, Table};
use crate::text::{opt_text, texts};

verus! {

/// A moment: seconds since the start of 1970 UTC, and nanoseconds beyond them.
#[derive(Clone, Copy, Debug, PartialEq, Eq, Structural)]
pub struct Timestamp {
    pub seconds: i64,
    pub nanos: u32,
}

/// `a` is before `b`.
pub open spec fn before(a: Timestamp, b: Timestamp) -> bool {
    a.seconds < b.seconds || (a.seconds == b.seconds && a.nanos < b.nanos)
}

/// Whether `a` is before `b`.
pub fn is_before(a: Timestamp, b: Timestamp) -> (r: bool)
    ensures
        r == before(a, b),
{
    a.seconds < b.seconds || (a.seconds == b.seconds && a.nanos < b.nanos)
}

/// One clone of a repository.
pub struct CloneState {
    /// Where the clone is.
    pub path: String,
    /// The branch that the clone was given to.
    pub assigned_branch: Option<String>,
    /// When the clone was last handed out.
    pub last_used: Timestamp,
    /// Pinned clones are handed out only when no other will do.
    pub pinned: bool,
}

/// What a [`CloneState`] says.
pub struct CloneView {
    pub path: Seq<char>,
    pub branch: Option<Seq<char>>,
    pub last_used: Timestamp,
    pub pinned: bool,
}

impl View for CloneState {
    type V = CloneView;

    open spec fn view(&self) -> CloneView {
        CloneView {
            path: self.path@,
            branch: opt_text(self.assigned_branch),
            last_used: self.last_used,
            pinned: self.pinned,
        }
    }
}

/// The clones of one pool, by name.
pub struct PoolState {
    pub clones: Table<CloneState>,
}

impl View for PoolState {
    type V = Entries<CloneView>;

    open spec fn view(&self) -> Entries<CloneView> {
        self.clones@
    }
}

impl PoolState {
    /// A pool without clones.
    pub fn new() -> (r: Self)
        ensures
            r@ == Seq::<(Seq<char>, CloneView)>::empty(),
    {
        PoolState { clones: Table::new() }
    }
}

/// The clones of all pools, by the name of the pool.
pub struct State {
    pub pools: Table<PoolState>,
}

impl View for State {
    type V = Entries<Entries<CloneView>>;

    open spec fn view(&self) -> Entries<Entries<CloneView>> {
        self.pools@
    }
}

impl State {
    /// No pools at all.
    pub fn new() -> (r: Self)
        ensures
            r@ == Seq::<(Seq<char>, Entries<CloneView>)>::empty(),
            state_ok(r@),
    {
        State { pools: Table::new() }
    }
}

/// The clones of all pools, with an entry for this pool even if it has none yet.
pub open spec fn entered(s: Entries<Entries<CloneView>>, pool: Seq<char>) -> Entries<
    Entries<CloneView>,
> {
    if holds(s, pool) {
        s
    } else {
        s.push((pool, Seq::empty()))
    }
}

/// The clones of a pool; none where nothing is known of it.
pub open spec fn clones_of(s: Entries<Entries<CloneView>>, pool: Seq<char>) -> Entries<CloneView> {
    match lookup(s, pool) {
        Some(clones) => clones,
        None => Seq::empty(),
    }
}

/// Makes sure that the pool has an entry, and says where it is.
pub fn enter_pool(state: &mut State, pool: &str) -> (r: usize)
    ensures
        final(state)@ == entered(old(state)@, pool@),
        r < final(state)@.len(),
        place(final(state)@, pool@) == Some(r as int),
        final(state)@[r as int].0 == pool@,
        final(state)@[r as int].1 == clones_of(old(state)@, pool@),
        state_ok(old(state)@) ==> state_ok(final(state)@),
{
    match state.pools.position(pool) {
        Some(i) => i,
        None => {
            let n = state.pools.len();
            let fresh = PoolState::new();
            proof {
                law_put(state@, pool@, fresh@, pool@);
                lemma_place(state@, pool@);
            }
            state.pools.insert(pool.to_owned(), fresh);
            proof {
                lemma_place(state@, pool@);
                assert(state@ =~= entered(old(state)@, pool@));
                assert(state@[n as int].0 == pool@);
                assert(state@.drop_last() =~= old(state)@);
                assert(unique(state@[n as int].1));
            }
            n
        },
    }
}

/// No pool occurs twice, and no clone twice in a pool.
pub open spec fn state_ok(s: Entries<Entries<CloneView>>) -> bool {
    unique(s) && forall|i: int| 0 <= i < s.len() ==> unique(#[trigger] s[i].1)
}

/// Putting clones without repetitions under a pool leaves no name twice.
pub proof fn law_put_clones(
    s: Entries<Entries<CloneView>>,
    pool: Seq<char>,
    clones: Entries<CloneView>,
)
    requires
        state_ok(s),
        unique(clones),
    ensures
        state_ok(put(s, pool, clones)),
{
    law_put(s, pool, clones, pool);
    lemma_place(s, pool);
    let after = put(s, pool, clones);
    assert forall|i: int| 0 <= i < after.len() implies unique(#[trigger] after[i].1) by {
        if i < s.len() && place(s, pool) != Some(i) {
            assert(after[i] == s[i]);
        }
    }
}

/// The clones of a pool have no name twice.
pub proof fn lemma_clones_unique(s: Entries<Entries<CloneView>>, pool: Seq<char>)
    requires
        state_ok(s),
    ensures
        unique(clones_of(s, pool)),
{
    lemma_place(s, pool);
    if let Some(i) = place(s, pool) {
        assert(unique(s[i].1));
    }
}

/// How a pool is set up.
pub struct PoolConfig {
    /// Where the clones come from.
    pub repo_url: String,
    /// The `owner/repo` at GitHub, for looking up pull requests.
    pub github_repo: Option<String>,
    /// The command that builds a clone.
    pub build_command: String,
}

/// What a [`PoolConfig`] says.
pub struct PoolConfigView {
    pub repo_url: Seq<char>,
    pub github_repo: Option<Seq<char>>,
    pub build_command: Seq<char>,
}

impl View for PoolConfig {
    type V = PoolConfigView;

    open spec fn view(&self) -> PoolConfigView {
        PoolConfigView {
            repo_url: self.repo_url@,
            github_repo: opt_text(self.github_repo),
            build_command: self.build_command@,
        }
    }
}

/// All pools that are set up, and the directory that their clones live in.
pub struct Config {
    pub clones_root: String,
    pub pools: Table<PoolConfig>,
}

/// What a [`Config`] says.
pub struct ConfigView {
    pub root: Seq<char>,
    pub pools: Entries<PoolConfigView>,
}

impl View for Config {
    type V = ConfigView;

    open spec fn view(&self) -> ConfigView {
        ConfigView { root: self.clones_root@, pools: self.pools@ }
    }
}

/// The branch names that are remembered for a pool.
pub struct BranchList {
    pub branches: Vec<String>,
}

impl View for BranchList {
    type V = Seq<Seq<char>>;

    open spec fn view(&self) -> Seq<Seq<char>> {
        texts(self.branches@)
    }
}

/// The branch names that are remembered, by the name of the pool.
pub struct BranchCache {
    pub pools: Table<BranchList>,
}

impl View for BranchCache {
    type V = Entries<Seq<Seq<char>>>;

    open spec fn view(&self) -> Entries<Seq<Seq<char>>> {
        self.pools@
    }
}

impl BranchCache {
    /// Nothing remembered.
    pub fn new() -> (r: Self)
        ensures
            r@ == Seq::<(Seq<char>, Seq<Seq<char>>)>::empty(),
    {
        BranchCache { pools: Table::new() }
    }
}

/// The command that builds a clone unless the pool says otherwise.
pub fn default_build_command() -> (r: String)
    ensures
        r@ == "cargo build"@,
{
    "cargo build".to_owned()
}

/// `rppool` below the home directory, or below the current one where there is no
/// home.
pub open spec fn default_root(home: Option<Seq<char>>) -> Seq<char> {
    match home {
        Some(h) => join(h, "rppool"@),
        None => join("."@, "rppool"@),
    }
}

/// The directory that clones live in unless the configuration says otherwise.
pub fn default_clones_root(home: Option<&str>) -> (r: String)
    ensures
        r@ == default_root(crate::text::opt_str(home)),
{
    match home {
        Some(h) => join_path(h, "rppool"),
        None => join_path(".", "rppool"),
    }
}

impl Config {
    /// The configuration before any pool is set up.
    pub fn initial(home: Option<&str>) -> (r: Self)
        ensures
            r@.root == default_root(crate::text::opt_str(home)),
            r@.pools == Seq::<(Seq<char>, PoolConfigView)>::empty(),
    {
        Config { clones_root: default_clones_root(home), pools: Table::new() }
    }
}

/// The directory of a pool's clones.
pub open spec fn pool_place(config: ConfigView, name: Seq<char>) -> Seq<char> {
    join(config.root, name)
}

/// The directory of a pool's clones, below the root of all clones.
pub fn pool_dir(config: &Config, pool_name: &str) -> (r: String)
    ensures
        r@ == pool_place(config@, pool_name@),
{
    join_path(config.clones_root.as_str(), pool_name)
}

/// Where clones live: below `rppool` in the home directory unless told otherwise, and
/// those of a pool below a directory of its name.
pub proof fn law_places(config: ConfigView, home: Seq<char>, name: Seq<char>)
    ensures
        default_root(Some(home)) == join(home, "rppool"@),
        default_root(None) == "./rppool"@,
        pool_place(config, name) == join(config.root, name),
{
    reveal_strlit(".");
    reveal_strlit("rppool");
    reveal_strlit("./rppool");
    assert("."@.push('/') + "rppool"@ =~= "./rppool"@);
}

/// Moments are ordered: by their seconds, and by their nanoseconds where those agree.
pub proof fn law_moments(a: Timestamp, b: Timestamp)
    ensures
        a.seconds < b.seconds ==> before(a, b) && !before(b, a),
        a.seconds == b.seconds && a.nanos < b.nanos ==> before(a, b) && !before(b, a),
        a == b ==> !before(a, b),
{
}

/// A pool that is entered is there, with the clones that it had, or none; other pools hold
/// what they held, and nothing is moved.
pub proof fn law_entered(
    s: Entries<Entries<CloneView>>,
    pool: Seq<char>,
    other: Seq<char>,
)
    ensures
        lookup(entered(s, pool), pool) == Some(clones_of(s, pool)),
        other != pool ==> lookup(entered(s, pool), other) == lookup(s, other),
        lookup(s, pool) matches Some(clones) ==> clones_of(s, pool) == clones,
        lookup(s, pool) is None ==> clones_of(s, pool).len() == 0,
        s.is_prefix_of(entered(s, pool)),
        entered(s, pool).len() <= s.len() + 1,
{
    lemma_place(s, pool);
    lemma_place(s, other);
    if !holds(s, pool) {
        let t = entered(s, pool);
        law_put(s, pool, Seq::empty(), pool);
        law_put(s, pool, Seq::empty(), other);
        assert(t == put(s, pool, Seq::empty()));
        assert(s =~= t.take(s.len() as int));
    } else {
        assert(s =~= s.take(s.len() as int));
    }
}

} // verus!
