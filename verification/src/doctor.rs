//! What is wrong with the recorded clones, and what can be put right.

use vstd::prelude::*;

use crate::model::{state_ok, CloneState, CloneView, Config, ConfigView, PoolState, State};
use crate::table::{holds, lemma_place, lemma_place_unique, lookup, place, unique, Entries};
use crate::text::{decimal, decimal_of, is_text, join_texts, joined};
use crate::text::{opt_str, same_text, texts};
use crate::model::clones_of;

verus! {

/// What was found where a clone should be.
pub enum CloneFacts {
    /// There is nothing.
    Missing,
    /// The clone is there.
    Present {
        /// The branch that it is on, or why that cannot be told.
        branch: Result<String, String>,
        /// Where it was cloned from, or why that cannot be told.
        remote: Result<String, String>,
    },
}

/// What [`CloneFacts`] say.
pub enum FactsView {
    Missing,
    Present { branch: Result<Seq<char>, Seq<char>>, remote: Result<Seq<char>, Seq<char>> },
}

/// The text of a reading, or of why there is none.
pub open spec fn reading(r: Result<String, String>) -> Result<Seq<char>, Seq<char>> {
    match r {
        Ok(t) => Ok(t@),
        Err(e) => Err(e@),
    }
}

impl View for CloneFacts {
    type V = FactsView;

    open spec fn view(&self) -> FactsView {
        match *self {
            CloneFacts::Missing => FactsView::Missing,
            CloneFacts::Present { branch, remote } => FactsView::Present {
                branch: reading(branch),
                remote: reading(remote),
            },
        }
    }
}

/// What was found of the clones of a pool.
pub open spec fn facts_of(v: Seq<CloneFacts>) -> Seq<FactsView> {
    v.map_values(|f: CloneFacts| f@)
}

/// What was found of the clones of all pools.
pub open spec fn all_facts(v: Seq<Vec<CloneFacts>>) -> Seq<Seq<FactsView>> {
    v.map_values(|f: Vec<CloneFacts>| facts_of(f@))
}

/// Something that is wrong: with a pool, or with a clone of a pool, each given by
/// its place.
#[derive(Clone, Copy, Debug, PartialEq, Eq, Structural)]
pub enum Finding {
    /// Clones are recorded for a pool that is not set up.
    Orphan { pool: usize },
    /// There is nothing where the clone should be.
    Missing { pool: usize, clone: usize },
    /// The clone is not on the branch that it is assigned to.
    BranchMismatch { pool: usize, clone: usize },
    /// The clone's branch cannot be told.
    BranchUnreadable { pool: usize, clone: usize },
    /// The clone does not come from where the pool's clones come from.
    UrlMismatch { pool: usize, clone: usize },
    /// Where the clone comes from cannot be told.
    UrlUnreadable { pool: usize, clone: usize },
    /// The clone's branch is assigned to later clones too.
    Duplicate { pool: usize, clone: usize },
}

/// What a [`Finding`] says.
pub enum FindingView {
    Orphan { pool: int },
    Missing { pool: int, clone: int },
    BranchMismatch { pool: int, clone: int },
    BranchUnreadable { pool: int, clone: int },
    UrlMismatch { pool: int, clone: int },
    UrlUnreadable { pool: int, clone: int },
    Duplicate { pool: int, clone: int },
}

impl View for Finding {
    type V = FindingView;

    open spec fn view(&self) -> FindingView {
        match *self {
            Finding::Orphan { pool } => FindingView::Orphan { pool: pool as int },
            Finding::Missing { pool, clone } => FindingView::Missing {
                pool: pool as int,
                clone: clone as int,
            },
            Finding::BranchMismatch { pool, clone } => FindingView::BranchMismatch {
                pool: pool as int,
                clone: clone as int,
            },
            Finding::BranchUnreadable { pool, clone } => FindingView::BranchUnreadable {
                pool: pool as int,
                clone: clone as int,
            },
            Finding::UrlMismatch { pool, clone } => FindingView::UrlMismatch {
                pool: pool as int,
                clone: clone as int,
            },
            Finding::UrlUnreadable { pool, clone } => FindingView::UrlUnreadable {
                pool: pool as int,
                clone: clone as int,
            },
            Finding::Duplicate { pool, clone } => FindingView::Duplicate {
                pool: pool as int,
                clone: clone as int,
            },
        }
    }
}

/// What the findings say, in order.
pub open spec fn found(v: Seq<Finding>) -> Seq<FindingView> {
    v.map_values(|f: Finding| f@)
}

// ---------------------------------------------------------------------------
// What is wrong
// ---------------------------------------------------------------------------

/// The clones of this pool are looked at: it is set up, and it is the only one that
/// was asked for or none was.
pub open spec fn examined(config: ConfigView, scope: Option<Seq<char>>, name: Seq<char>) -> bool {
    holds(config.pools, name) && (scope is None || scope == Some(name))
}

/// Whether the clones of this pool are looked at.
pub fn is_examined(config: &Config, scope: Option<&str>, name: &str) -> (r: bool)
    ensures
        r == examined(config@, opt_str(scope), name@),
{
    config.pools.contains(name) && match scope {
        Some(only) => same_text(only, name),
        None => true,
    }
}

/// There are facts of every clone that is looked at.
pub open spec fn aligned(
    config: ConfigView,
    state: Entries<Entries<CloneView>>,
    facts: Seq<Seq<FactsView>>,
    scope: Option<Seq<char>>,
) -> bool {
    &&& facts.len() == state.len()
    &&& forall|p: int|
        0 <= p < state.len() && examined(config, scope, #[trigger] state[p].0) ==> facts[p].len()
            == state[p].1.len()
}

/// The first `n` recorded pools that are not set up.
pub open spec fn orphans(config: ConfigView, state: Entries<Entries<CloneView>>, n: int) -> Seq<
    FindingView,
>
    decreases n,
{
    if n <= 0 {
        Seq::empty()
    } else if holds(config.pools, state[n - 1].0) {
        orphans(config, state, n - 1)
    } else {
        orphans(config, state, n - 1).push(FindingView::Orphan { pool: n - 1 })
    }
}

/// What is wrong with the branch of a clone that is there: only an assigned clone
/// has one to be held to.
pub open spec fn branch_findings(
    p: int,
    c: int,
    assigned: Option<Seq<char>>,
    actual: Result<Seq<char>, Seq<char>>,
) -> Seq<FindingView> {
    match (assigned, actual) {
        (Some(b), Ok(a)) => if a == b {
            Seq::empty()
        } else {
            seq![FindingView::BranchMismatch { pool: p, clone: c }]
        },
        (Some(b), Err(_)) => seq![FindingView::BranchUnreadable { pool: p, clone: c }],
        (None, _) => Seq::empty(),
    }
}

/// What is wrong with where a clone comes from.
pub open spec fn url_findings(
    p: int,
    c: int,
    url: Seq<char>,
    remote: Result<Seq<char>, Seq<char>>,
) -> Seq<FindingView> {
    match remote {
        Ok(u) => if u == url {
            Seq::empty()
        } else {
            seq![FindingView::UrlMismatch { pool: p, clone: c }]
        },
        Err(_) => seq![FindingView::UrlUnreadable { pool: p, clone: c }],
    }
}

/// What is wrong with a clone: of one that is not there, only that.
pub open spec fn clone_findings(
    p: int,
    c: int,
    clone: CloneView,
    facts: FactsView,
    url: Seq<char>,
) -> Seq<FindingView> {
    match facts {
        FactsView::Missing => seq![FindingView::Missing { pool: p, clone: c }],
        FactsView::Present { branch, remote } => branch_findings(p, c, clone.branch, branch)
            + url_findings(p, c, url, remote),
    }
}

/// What is wrong with each of the first `n` clones of a pool.
pub open spec fn clones_findings(
    p: int,
    clones: Entries<CloneView>,
    facts: Seq<FactsView>,
    url: Seq<char>,
    n: int,
) -> Seq<FindingView>
    decreases n,
{
    if n <= 0 {
        Seq::empty()
    } else {
        clones_findings(p, clones, facts, url, n - 1) + clone_findings(
            p,
            n - 1,
            clones[n - 1].1,
            facts[n - 1],
            url,
        )
    }
}

/// The clone is there and assigned to the branch.
pub open spec fn owns(
    clones: Entries<CloneView>,
    facts: Seq<FactsView>,
    c: int,
    branch: Seq<char>,
) -> bool {
    facts[c] is Present && clones[c].1.branch == Some(branch)
}

/// The clone is the first of several with its branch.
pub open spec fn duplicated(clones: Entries<CloneView>, facts: Seq<FactsView>, c: int) -> bool {
    match clones[c].1.branch {
        Some(b) => {
            &&& owns(clones, facts, c, b)
            &&& forall|j: int| 0 <= j < c ==> !#[trigger] owns(clones, facts, j, b)
            &&& exists|j: int| c < j < clones.len() && #[trigger] owns(clones, facts, j, b)
        },
        None => false,
    }
}

/// The branches with several clones, each by the first of its clones, where that is
/// among the first `n`.
pub open spec fn duplicates(
    p: int,
    clones: Entries<CloneView>,
    facts: Seq<FactsView>,
    n: int,
) -> Seq<FindingView>
    decreases n,
{
    if n <= 0 {
        Seq::empty()
    } else if duplicated(clones, facts, n - 1) {
        duplicates(p, clones, facts, n - 1).push(FindingView::Duplicate { pool: p, clone: n - 1 })
    } else {
        duplicates(p, clones, facts, n - 1)
    }
}

/// What is wrong with the clones of a pool.
pub open spec fn pool_findings(
    p: int,
    clones: Entries<CloneView>,
    facts: Seq<FactsView>,
    url: Seq<char>,
) -> Seq<FindingView> {
    clones_findings(p, clones, facts, url, clones.len() as int) + duplicates(
        p,
        clones,
        facts,
        clones.len() as int,
    )
}

/// Where the clones of a pool come from.
pub open spec fn repo_url(config: ConfigView, pool: Seq<char>) -> Seq<char> {
    lookup(config.pools, pool)->0.repo_url
}

/// What is wrong with the clones of the first `n` pools that are set up.
pub open spec fn walked(
    config: ConfigView,
    state: Entries<Entries<CloneView>>,
    facts: Seq<Seq<FactsView>>,
    scope: Option<Seq<char>>,
    n: int,
) -> Seq<FindingView>
    decreases n,
{
    if n <= 0 {
        Seq::empty()
    } else {
        let rest = walked(config, state, facts, scope, n - 1);
        let name = config.pools[n - 1].0;
        match place(state, name) {
            Some(p) => if scope is None || scope == Some(name) {
                rest + pool_findings(p, state[p].1, facts[p], repo_url(config, name))
            } else {
                rest
            },
            None => rest,
        }
    }
}

/// Everything that is wrong. Pools that are not set up count only where no pool was
/// asked for.
pub open spec fn findings(
    config: ConfigView,
    state: Entries<Entries<CloneView>>,
    facts: Seq<Seq<FactsView>>,
    scope: Option<Seq<char>>,
) -> Seq<FindingView> {
    let clones = walked(config, state, facts, scope, config.pools.len() as int);
    match scope {
        None => orphans(config, state, state.len() as int) + clones,
        Some(_) => clones,
    }
}

/// The clone is one that is looked at.
pub open spec fn looked_at(
    config: ConfigView,
    state: Entries<Entries<CloneView>>,
    scope: Option<Seq<char>>,
    p: int,
    c: int,
) -> bool {
    &&& 0 <= p < state.len()
    &&& place(state, state[p].0) == Some(p)
    &&& examined(config, scope, state[p].0)
    &&& 0 <= c < state[p].1.len()
}

/// What it means that something is wrong.
pub open spec fn arises(
    config: ConfigView,
    state: Entries<Entries<CloneView>>,
    facts: Seq<Seq<FactsView>>,
    scope: Option<Seq<char>>,
    f: FindingView,
) -> bool {
    match f {
        FindingView::Orphan { pool } => {
            &&& scope is None
            &&& 0 <= pool < state.len()
            &&& !holds(config.pools, state[pool].0)
        },
        FindingView::Missing { pool, clone } => {
            &&& looked_at(config, state, scope, pool, clone)
            &&& facts[pool][clone] is Missing
        },
        FindingView::BranchMismatch { pool, clone } => {
            &&& looked_at(config, state, scope, pool, clone)
            &&& facts[pool][clone] matches FactsView::Present { branch: Ok(actual), .. }
            &&& state[pool].1[clone].1.branch matches Some(assigned)
            &&& actual != assigned
        },
        FindingView::BranchUnreadable { pool, clone } => {
            &&& looked_at(config, state, scope, pool, clone)
            &&& facts[pool][clone] matches FactsView::Present { branch: Err(_), .. }
            &&& state[pool].1[clone].1.branch is Some
        },
        FindingView::UrlMismatch { pool, clone } => {
            &&& looked_at(config, state, scope, pool, clone)
            &&& facts[pool][clone] matches FactsView::Present { remote: Ok(actual), .. }
            &&& actual != repo_url(config, state[pool].0)
        },
        FindingView::UrlUnreadable { pool, clone } => {
            &&& looked_at(config, state, scope, pool, clone)
            &&& facts[pool][clone] matches FactsView::Present { remote: Err(_), .. }
        },
        FindingView::Duplicate { pool, clone } => {
            &&& looked_at(config, state, scope, pool, clone)
            &&& duplicated(state[pool].1, facts[pool], clone)
        },
    }
}

proof fn lemma_orphans(
    config: ConfigView,
    state: Entries<Entries<CloneView>>,
    n: int,
    f: FindingView,
)
    requires
        0 <= n <= state.len(),
    ensures
        orphans(config, state, n).contains(f) == (f matches FindingView::Orphan { pool } && 0
            <= pool < n && !holds(config.pools, state[pool].0)),
    decreases n,
{
    broadcast use vstd::seq_lib::group_seq_properties;

    if n > 0 {
        lemma_orphans(config, state, n - 1, f);
    }
}

proof fn lemma_clones_findings(
    p: int,
    clones: Entries<CloneView>,
    facts: Seq<FactsView>,
    url: Seq<char>,
    n: int,
    f: FindingView,
)
    requires
        0 <= n <= clones.len(),
    ensures
        clones_findings(p, clones, facts, url, n).contains(f) == exists|c: int|
            0 <= c < n && (#[trigger] clone_findings(
                p,
                c,
                clones[c].1,
                facts[c],
                url,
            )).contains(f),
    decreases n,
{
    broadcast use vstd::seq_lib::group_seq_properties;

    if n > 0 {
        lemma_clones_findings(p, clones, facts, url, n - 1, f);
        let last = clone_findings(p, n - 1, clones[n - 1].1, facts[n - 1], url);
        if last.contains(f) {
            assert(clone_findings(p, n - 1, clones[n - 1].1, facts[n - 1], url).contains(f));
        }
    }
}

proof fn lemma_clone_findings(
    p: int,
    c: int,
    clone: CloneView,
    facts: FactsView,
    url: Seq<char>,
    f: FindingView,
)
    ensures
        clone_findings(p, c, clone, facts, url).contains(f) == match f {
            FindingView::Orphan { .. } => false,
            FindingView::Missing { pool, clone: k } => pool == p && k == c && facts is Missing,
            FindingView::BranchMismatch { pool, clone: k } => {
                &&& pool == p && k == c
                &&& facts matches FactsView::Present { branch: Ok(actual), .. }
                &&& clone.branch matches Some(assigned)
                &&& actual != assigned
            },
            FindingView::BranchUnreadable { pool, clone: k } => {
                &&& pool == p && k == c
                &&& facts matches FactsView::Present { branch: Err(_), .. }
                &&& clone.branch is Some
            },
            FindingView::UrlMismatch { pool, clone: k } => {
                &&& pool == p && k == c
                &&& facts matches FactsView::Present { remote: Ok(actual), .. }
                &&& actual != url
            },
            FindingView::UrlUnreadable { pool, clone: k } => {
                &&& pool == p && k == c
                &&& facts matches FactsView::Present { remote: Err(_), .. }
            },
            FindingView::Duplicate { .. } => false,
        },
{
    broadcast use vstd::seq_lib::group_seq_properties;

    let s = clone_findings(p, c, clone, facts, url);
    match facts {
        FactsView::Missing => {
            assert(s[0] == FindingView::Missing { pool: p, clone: c });
        },
        FactsView::Present { branch, remote } => {
            let b = branch_findings(p, c, clone.branch, branch);
            let u = url_findings(p, c, url, remote);
            assert(s == b + u);
            if b.len() > 0 {
                assert(b.contains(b[0]));
            }
            if u.len() > 0 {
                assert(u.contains(u[0]));
            }
        },
    }
}

proof fn lemma_duplicates(
    p: int,
    clones: Entries<CloneView>,
    facts: Seq<FactsView>,
    n: int,
    f: FindingView,
)
    ensures
        duplicates(p, clones, facts, n).contains(f) == (f matches FindingView::Duplicate {
            pool,
            clone,
        } && pool == p && 0 <= clone < n && duplicated(clones, facts, clone)),
    decreases n,
{
    broadcast use vstd::seq_lib::group_seq_properties;

    if n > 0 {
        lemma_duplicates(p, clones, facts, n - 1, f);
    }
}

proof fn lemma_pool_findings(
    config: ConfigView,
    state: Entries<Entries<CloneView>>,
    facts: Seq<Seq<FactsView>>,
    scope: Option<Seq<char>>,
    p: int,
    f: FindingView,
)
    requires
        0 <= p < state.len(),
        place(state, state[p].0) == Some(p),
        examined(config, scope, state[p].0),
    ensures
        pool_findings(p, state[p].1, facts[p], repo_url(config, state[p].0)).contains(f) == (!(f
            is Orphan) && pool_of(f) == p && arises(config, state, facts, scope, f)),
{
    broadcast use vstd::seq_lib::group_seq_properties;

    let clones = state[p].1;
    let url = repo_url(config, state[p].0);
    lemma_clones_findings(p, clones, facts[p], url, clones.len() as int, f);
    lemma_duplicates(p, clones, facts[p], clones.len() as int, f);
    assert forall|c: int| 0 <= c < clones.len() implies (#[trigger] clone_findings(
        p,
        c,
        clones[c].1,
        facts[p][c],
        url,
    )).contains(f) == (!(f is Orphan) && !(f is Duplicate) && pool_of(f) == p && clone_of(f) == c
        && arises(config, state, facts, scope, f)) by {
        lemma_clone_findings(p, c, clones[c].1, facts[p][c], url, f);
    }
    if !(f is Orphan) && !(f is Duplicate) && pool_of(f) == p && arises(
        config,
        state,
        facts,
        scope,
        f,
    ) {
        let c = clone_of(f);
        assert(clone_findings(p, c, clones[c].1, facts[p][c], url).contains(f));
    }
}

/// The pool that something is wrong with.
pub open spec fn pool_of(f: FindingView) -> int {
    match f {
        FindingView::Orphan { pool } => pool,
        FindingView::Missing { pool, .. } => pool,
        FindingView::BranchMismatch { pool, .. } => pool,
        FindingView::BranchUnreadable { pool, .. } => pool,
        FindingView::UrlMismatch { pool, .. } => pool,
        FindingView::UrlUnreadable { pool, .. } => pool,
        FindingView::Duplicate { pool, .. } => pool,
    }
}

/// The clone that something is wrong with.
pub open spec fn clone_of(f: FindingView) -> int {
    match f {
        FindingView::Orphan { .. } => 0,
        FindingView::Missing { clone, .. } => clone,
        FindingView::BranchMismatch { clone, .. } => clone,
        FindingView::BranchUnreadable { clone, .. } => clone,
        FindingView::UrlMismatch { clone, .. } => clone,
        FindingView::UrlUnreadable { clone, .. } => clone,
        FindingView::Duplicate { clone, .. } => clone,
    }
}

proof fn lemma_walked(
    config: ConfigView,
    state: Entries<Entries<CloneView>>,
    facts: Seq<Seq<FactsView>>,
    scope: Option<Seq<char>>,
    n: int,
    f: FindingView,
)
    requires
        0 <= n <= config.pools.len(),
    ensures
        walked(config, state, facts, scope, n).contains(f) == (!(f is Orphan) && arises(
            config,
            state,
            facts,
            scope,
            f,
        ) && exists|i: int| 0 <= i < n && #[trigger] config.pools[i].0 == state[pool_of(f)].0),
    decreases n,
{
    broadcast use vstd::seq_lib::group_seq_properties;

    if n > 0 {
        lemma_walked(config, state, facts, scope, n - 1, f);
        let name = config.pools[n - 1].0;
        lemma_place(state, name);
        assert(holds(config.pools, name));
        match place(state, name) {
            Some(p) => {
                if scope is None || scope == Some(name) {
                    lemma_pool_findings(config, state, facts, scope, p, f);
                }
            },
            None => {},
        }
        if !(f is Orphan) && arises(config, state, facts, scope, f) && state[pool_of(f)].0 == name {
            assert(place(state, name) == Some(pool_of(f)));
        }
    }
}

/// What is found is exactly what is wrong.
pub proof fn law_findings_exact(
    config: ConfigView,
    state: Entries<Entries<CloneView>>,
    facts: Seq<Seq<FactsView>>,
    scope: Option<Seq<char>>,
    f: FindingView,
)
    ensures
        findings(config, state, facts, scope).contains(f) == arises(config, state, facts, scope, f),
{
    broadcast use vstd::seq_lib::group_seq_properties;

    lemma_orphans(config, state, state.len() as int, f);
    lemma_walked(config, state, facts, scope, config.pools.len() as int, f);
    if !(f is Orphan) && arises(config, state, facts, scope, f) {
        assert(holds(config.pools, state[pool_of(f)].0));
    }
}

fn find_orphans(config: &Config, state: &State) -> (r: Vec<Finding>)
    ensures
        found(r@) == orphans(config@, state@, state@.len() as int),
{
    let mut r: Vec<Finding> = Vec::new();
    let n = state.pools.len();
    for p in 0..n
        invariant
            n == state@.len(),
            found(r@) == orphans(config@, state@, p as int),
    {
        if !config.pools.contains(state.pools.name(p).as_str()) {
            let ghost was = r@;
            r.push(Finding::Orphan { pool: p });
            assert(found(r@) =~= found(was).push(FindingView::Orphan { pool: p as int }));
        }
    }
    r
}

fn check_clone(
    p: usize,
    c: usize,
    clone: &CloneState,
    facts: &CloneFacts,
    url: &str,
    r: &mut Vec<Finding>,
)
    ensures
        found(final(r)@) == found(old(r)@) + clone_findings(
            p as int,
            c as int,
            clone@,
            facts@,
            url@,
        ),
{
    let ghost was = r@;
    match facts {
        CloneFacts::Missing => {
            r.push(Finding::Missing { pool: p, clone: c });
            assert(found(r@) =~= found(was) + clone_findings(
                p as int,
                c as int,
                clone@,
                facts@,
                url@,
            ));
        },
        CloneFacts::Present { branch, remote } => {
            match &clone.assigned_branch {
                Some(assigned) => match branch {
                    Ok(actual) => {
                        if !same_text(actual.as_str(), assigned.as_str()) {
                            r.push(Finding::BranchMismatch { pool: p, clone: c });
                        }
                    },
                    Err(_) => {
                        r.push(Finding::BranchUnreadable { pool: p, clone: c });
                    },
                },
                None => {},
            }
            assert(found(r@) =~= found(was) + branch_findings(
                p as int,
                c as int,
                clone@.branch,
                reading(*branch),
            ));
            let ghost mid = r@;
            match remote {
                Ok(actual) => {
                    if !same_text(actual.as_str(), url) {
                        r.push(Finding::UrlMismatch { pool: p, clone: c });
                    }
                },
                Err(_) => {
                    r.push(Finding::UrlUnreadable { pool: p, clone: c });
                },
            }
            assert(found(r@) =~= found(mid) + url_findings(
                p as int,
                c as int,
                url@,
                reading(*remote),
            ));
            assert(found(r@) =~= found(was) + clone_findings(
                p as int,
                c as int,
                clone@,
                facts@,
                url@,
            ));
        },
    }
}

fn clone_owns(pool: &PoolState, facts: &Vec<CloneFacts>, c: usize, branch: &str) -> (r: bool)
    requires
        c < pool@.len(),
        c < facts@.len(),
    ensures
        r == owns(pool@, facts_of(facts@), c as int, branch@),
{
    let present = match &facts[c] {
        CloneFacts::Present { .. } => true,
        CloneFacts::Missing => false,
    };
    assert(facts_of(facts@)[c as int] == facts@[c as int]@);
    present && is_text(&pool.clones.value(c).assigned_branch, branch)
}

proof fn lemma_duplicated(
    clones: Entries<CloneView>,
    facts: Seq<FactsView>,
    c: int,
    j: int,
    branch: Seq<char>,
)
    requires
        clones[c].1.branch == Some(branch),
        owns(clones, facts, c, branch),
        forall|k: int| 0 <= k < c ==> !#[trigger] owns(clones, facts, k, branch),
        c < j < clones.len(),
        owns(clones, facts, j, branch),
    ensures
        duplicated(clones, facts, c),
{
}

fn is_duplicated(pool: &PoolState, facts: &Vec<CloneFacts>, c: usize) -> (r: bool)
    requires
        c < pool@.len(),
        facts@.len() == pool@.len(),
    ensures
        r == duplicated(pool@, facts_of(facts@), c as int),
{
    let ghost fs = facts_of(facts@);
    match &pool.clones.value(c).assigned_branch {
        Some(b) => {
            if !clone_owns(pool, facts, c, b.as_str()) {
                return false;
            }
            for j in 0..c
                invariant
                    c < pool@.len(),
                    facts@.len() == pool@.len(),
                    fs == facts_of(facts@),
                    pool@[c as int].1.branch == Some(b@),
                    forall|k: int| 0 <= k < j ==> !#[trigger] owns(pool@, fs, k, b@),
            {
                if clone_owns(pool, facts, j, b.as_str()) {
                    assert(owns(pool@, fs, j as int, b@));
                    return false;
                }
            }
            let n = pool.clones.len();
            for j in c + 1..n
                invariant
                    c < j,
                    c < pool@.len(),
                    n == pool@.len(),
                    facts@.len() == pool@.len(),
                    fs == facts_of(facts@),
                    pool@[c as int].1.branch == Some(b@),
                    owns(pool@, fs, c as int, b@),
                    forall|k: int| 0 <= k < c ==> !#[trigger] owns(pool@, fs, k, b@),
                    forall|k: int| c < k < j ==> !#[trigger] owns(pool@, fs, k, b@),
            {
                if clone_owns(pool, facts, j, b.as_str()) {
                    proof {
                        lemma_duplicated(pool@, fs, c as int, j as int, b@);
                    }
                    return true;
                }
            }
            false
        },
        None => false,
    }
}

fn check_pool(
    p: usize,
    pool: &PoolState,
    facts: &Vec<CloneFacts>,
    url: &str,
    r: &mut Vec<Finding>,
)
    requires
        facts@.len() == pool@.len(),
    ensures
        found(final(r)@) == found(old(r)@) + pool_findings(p as int, pool@, facts_of(facts@), url@),
{
    let ghost was = found(r@);
    let ghost fs = facts_of(facts@);
    let n = pool.clones.len();
    assert(was =~= was + clones_findings(p as int, pool@, fs, url@, 0));
    for c in 0..n
        invariant
            n == pool@.len(),
            facts@.len() == pool@.len(),
            fs == facts_of(facts@),
            found(r@) == was + clones_findings(p as int, pool@, fs, url@, c as int),
    {
        assert(fs[c as int] == facts@[c as int]@);
        check_clone(p, c, pool.clones.value(c), &facts[c], url, r);
        assert(found(r@) =~= was + clones_findings(p as int, pool@, fs, url@, c + 1));
    }
    let ghost mid = found(r@);
    assert(mid =~= mid + duplicates(p as int, pool@, fs, 0));
    for c in 0..n
        invariant
            n == pool@.len(),
            facts@.len() == pool@.len(),
            fs == facts_of(facts@),
            found(r@) == mid + duplicates(p as int, pool@, fs, c as int),
    {
        if is_duplicated(pool, facts, c) {
            let ghost prev = r@;
            r.push(Finding::Duplicate { pool: p, clone: c });
            assert(found(r@) =~= found(prev).push(
                FindingView::Duplicate { pool: p as int, clone: c as int },
            ));
        }
        assert(found(r@) =~= mid + duplicates(p as int, pool@, fs, c + 1));
    }
    assert(found(r@) =~= was + pool_findings(p as int, pool@, fs, url@));
}

/// Looks for everything that is wrong.
pub fn examine(
    config: &Config,
    state: &State,
    facts: &Vec<Vec<CloneFacts>>,
    scope: Option<&str>,
) -> (r: Vec<Finding>)
    requires
        aligned(config@, state@, all_facts(facts@), opt_str(scope)),
    ensures
        found(r@) == findings(config@, state@, all_facts(facts@), opt_str(scope)),
{
    let ghost fs = all_facts(facts@);
    let mut r = match scope {
        None => find_orphans(config, state),
        Some(_) => {
            let none: Vec<Finding> = Vec::new();
            assert(found(none@) =~= Seq::empty());
            none
        },
    };
    let ghost was = found(r@);
    let n = config.pools.len();
    assert(was =~= was + walked(config@, state@, fs, opt_str(scope), 0));
    for i in 0..n
        invariant
            n == config@.pools.len(),
            fs == all_facts(facts@),
            aligned(config@, state@, fs, opt_str(scope)),
            found(r@) == was + walked(config@, state@, fs, opt_str(scope), i as int),
    {
        let name = config.pools.name(i).as_str();
        let in_scope = match scope {
            Some(only) => same_text(only, name),
            None => true,
        };
        assert(config@.pools[i as int].0 == name@);
        if in_scope {
            if let (Some(p), Some(pool_config)) = (
                state.pools.position(name),
                config.pools.get(name),
            ) {
                assert(examined(config@, opt_str(scope), state@[p as int].0));
                assert(fs[p as int] == facts_of(facts@[p as int]@));
                check_pool(
                    p,
                    state.pools.value(p),
                    &facts[p],
                    pool_config.repo_url.as_str(),
                    &mut r,
                );
            }
        }
        proof {
            lemma_place(config@.pools, name@);
        }
        assert(found(r@) =~= was + walked(config@, state@, fs, opt_str(scope), i + 1));
    }
    assert(found(r@) =~= findings(config@, state@, fs, opt_str(scope)));
    r
}

// ---------------------------------------------------------------------------
// What can be put right
// ---------------------------------------------------------------------------

/// The branch that a clone is recorded with once its record is put right: the one
/// it is on, none where it is on no branch.
pub open spec fn repaired_branch(
    assigned: Option<Seq<char>>,
    actual: Result<Seq<char>, Seq<char>>,
) -> Option<Seq<char>> {
    match (assigned, actual) {
        (Some(_), Ok(a)) => if a == "HEAD"@ && assigned != Some(a) {
            None
        } else {
            Some(a)
        },
        _ => assigned,
    }
}

/// The clones of a pool from the one at `c` on, put right: those that are missing
/// are gone, and each other is recorded with the branch that it is on.
pub open spec fn repaired_clones(
    clones: Entries<CloneView>,
    facts: Seq<FactsView>,
    c: int,
) -> Entries<CloneView>
    decreases clones.len() - c,
{
    if c < 0 || c >= clones.len() {
        Seq::empty()
    } else {
        let rest = repaired_clones(clones, facts, c + 1);
        match facts[c] {
            FactsView::Missing => rest,
            FactsView::Present { branch, .. } => seq![
                (
                    clones[c].0,
                    CloneView {
                        branch: repaired_branch(clones[c].1.branch, branch),
                        ..clones[c].1
                    },
                ),
            ] + rest,
        }
    }
}

/// The recorded pools from the one at `p` on, put right: those that are not set up
/// are gone where no pool was asked for, and the clones of those that are looked at
/// are put right.
pub open spec fn repaired_pools(
    config: ConfigView,
    state: Entries<Entries<CloneView>>,
    facts: Seq<Seq<FactsView>>,
    scope: Option<Seq<char>>,
    p: int,
) -> Entries<Entries<CloneView>>
    decreases state.len() - p,
{
    if p < 0 || p >= state.len() {
        Seq::empty()
    } else {
        let rest = repaired_pools(config, state, facts, scope, p + 1);
        let name = state[p].0;
        if scope is None && !holds(config.pools, name) {
            rest
        } else if examined(config, scope, name) {
            seq![(name, repaired_clones(state[p].1, facts[p], 0))] + rest
        } else {
            seq![state[p]] + rest
        }
    }
}

/// The recorded clones of all pools, put right.
pub open spec fn repaired(
    config: ConfigView,
    state: Entries<Entries<CloneView>>,
    facts: Seq<Seq<FactsView>>,
    scope: Option<Seq<char>>,
) -> Entries<Entries<CloneView>> {
    repaired_pools(config, state, facts, scope, 0)
}

fn repair_branch(clone: &mut CloneState, actual: &Result<String, String>)
    ensures
        final(clone)@ == (CloneView {
            branch: repaired_branch(old(clone)@.branch, reading(*actual)),
            ..old(clone)@
        }),
{
    if let Ok(a) = actual {
        let update = match &clone.assigned_branch {
            Some(b) => !same_text(a.as_str(), b.as_str()),
            None => false,
        };
        if update {
            if same_text(a.as_str(), "HEAD") {
                clone.assigned_branch = None;
            } else {
                clone.assigned_branch = Some(a.clone());
            }
        }
    }
}

fn repair_clones(pool: &mut PoolState, facts: &Vec<CloneFacts>)
    requires
        facts@.len() == old(pool)@.len(),
    ensures
        final(pool)@ == repaired_clones(old(pool)@, facts_of(facts@), 0),
{
    let ghost was = pool@;
    let ghost fs = facts_of(facts@);
    let mut c = pool.clones.len();
    assert(pool@ =~= was.take(c as int) + repaired_clones(was, fs, c as int));
    while c > 0
        invariant
            c <= was.len(),
            facts@.len() == was.len(),
            fs == facts_of(facts@),
            pool@ == was.take(c as int) + repaired_clones(was, fs, c as int),
        decreases c,
    {
        c = c - 1;
        let ghost rest = repaired_clones(was, fs, c + 1);
        assert(pool@[c as int] == was[c as int]);
        assert(fs[c as int] == facts@[c as int]@);
        match &facts[c] {
            CloneFacts::Missing => {
                pool.clones.remove_at(c);
            },
            CloneFacts::Present { branch, .. } => {
                repair_branch(pool.clones.value_mut(c), branch);
            },
        }
        assert(pool@ =~= was.take(c as int) + repaired_clones(was, fs, c as int));
    }
    assert(pool@ =~= repaired_clones(was, fs, 0));
}

/// Puts the recorded clones right.
pub fn repair(config: &Config, state: &mut State, facts: &Vec<Vec<CloneFacts>>, scope: Option<&str>)
    requires
        aligned(config@, old(state)@, all_facts(facts@), opt_str(scope)),
    ensures
        final(state)@ == repaired(config@, old(state)@, all_facts(facts@), opt_str(scope)),
        state_ok(old(state)@) ==> state_ok(final(state)@),
{
    proof {
        if state_ok(state@) {
            law_repair_keeps_records(config@, state@, all_facts(facts@), opt_str(scope));
        }
    }
    let ghost was = state@;
    let ghost fs = all_facts(facts@);
    let ghost sc = opt_str(scope);
    let mut p = state.pools.len();
    assert(state@ =~= was.take(p as int) + repaired_pools(config@, was, fs, sc, p as int));
    while p > 0
        invariant
            p <= was.len(),
            fs == all_facts(facts@),
            sc == opt_str(scope),
            aligned(config@, was, fs, sc),
            state@ == was.take(p as int) + repaired_pools(config@, was, fs, sc, p as int),
        decreases p,
    {
        p = p - 1;
        assert(state@[p as int] == was[p as int]);
        assert(fs[p as int] == facts_of(facts@[p as int]@));
        let known = config.pools.contains(state.pools.name(p).as_str());
        let looked_at = is_examined(config, scope, state.pools.name(p).as_str());
        if scope.is_none() && !known {
            state.pools.remove_at(p);
        } else if looked_at {
            repair_clones(state.pools.value_mut(p), &facts[p]);
        }
        assert(state@ =~= was.take(p as int) + repaired_pools(config@, was, fs, sc, p as int));
    }
    assert(state@ =~= repaired(config@, was, fs, sc));
}

// ---------------------------------------------------------------------------
// What the user is told
// ---------------------------------------------------------------------------

/// This can be put right.
pub open spec fn fixable(f: FindingView) -> bool {
    f is Orphan || f is Missing || f is BranchMismatch
}

/// How many of these can be put right.
pub open spec fn fixable_count(s: Seq<FindingView>) -> nat
    decreases s.len(),
{
    if s.len() == 0 {
        0
    } else {
        fixable_count(s.drop_last()) + if fixable(s.last()) {
            1nat
        } else {
            0nat
        }
    }
}

/// A clone of a pool.
pub open spec fn label(
    state: Entries<Entries<CloneView>>,
    pool: int,
    clone: int,
) -> Seq<char> {
    "["@ + state[pool].0 + "/"@ + state[pool].1[clone].0 + "]"@
}

/// The names of the clones among the first `n` that have the branch.
pub open spec fn owners(
    clones: Entries<CloneView>,
    facts: Seq<FactsView>,
    branch: Seq<char>,
    n: int,
) -> Seq<Seq<char>>
    decreases n,
{
    if n <= 0 {
        Seq::empty()
    } else if owns(clones, facts, n - 1, branch) {
        owners(clones, facts, branch, n - 1).push(clones[n - 1].0)
    } else {
        owners(clones, facts, branch, n - 1)
    }
}

/// What is said of something that is wrong.
pub open spec fn warning_text(
    f: FindingView,
    config: ConfigView,
    state: Entries<Entries<CloneView>>,
    facts: Seq<Seq<FactsView>>,
) -> Seq<char> {
    match f {
        FindingView::Orphan { pool } => "WARN: pool '"@ + state[pool].0
            + "' exists in state but not in config (orphaned)"@,
        FindingView::Missing { pool, clone } => "WARN: "@ + label(state, pool, clone)
            + " path does not exist: "@ + state[pool].1[clone].1.path,
        FindingView::BranchMismatch { pool, clone } => "WARN: "@ + label(state, pool, clone)
            + " branch mismatch: state says '"@ + state[pool].1[clone].1.branch->0
            + "', actual is '"@ + facts[pool][clone]->branch->Ok_0 + "'"@,
        FindingView::BranchUnreadable { pool, clone } => "WARN: "@ + label(state, pool, clone)
            + " could not read branch: "@ + facts[pool][clone]->branch->Err_0,
        FindingView::UrlMismatch { pool, clone } => "WARN: "@ + label(state, pool, clone)
            + " remote URL mismatch: pool expects '"@ + repo_url(config, state[pool].0)
            + "', clone has '"@ + facts[pool][clone]->remote->Ok_0 + "'"@,
        FindingView::UrlUnreadable { pool, clone } => "WARN: "@ + label(state, pool, clone)
            + " could not read remote URL: "@ + facts[pool][clone]->remote->Err_0,
        FindingView::Duplicate { pool, clone } => "WARN: ["@ + state[pool].0 + "] branch '"@
            + state[pool].1[clone].1.branch->0 + "' is assigned to multiple clones: "@ + joined(
            owners(
                state[pool].1,
                facts[pool],
                state[pool].1[clone].1.branch->0,
                state[pool].1.len() as int,
            ),
            ", "@,
        ),
    }
}

/// What is said of something that was put right.
pub open spec fn remedy_text(
    f: FindingView,
    state: Entries<Entries<CloneView>>,
    facts: Seq<Seq<FactsView>>,
) -> Seq<char> {
    match f {
        FindingView::Orphan { pool } => "  FIXED: removed orphaned pool '"@ + state[pool].0
            + "' from state"@,
        FindingView::Missing { pool, clone } => "  FIXED: removed clone '"@
            + state[pool].1[clone].0 + "' from pool '"@ + state[pool].0 + "' state"@,
        FindingView::BranchMismatch { pool, clone } => "  FIXED: updated "@ + label(
            state,
            pool,
            clone,
        ) + " branch to '"@ + (if facts[pool][clone]->branch->Ok_0 == "HEAD"@ {
            "(unassigned)"@
        } else {
            facts[pool][clone]->branch->Ok_0
        }) + "'"@,
        _ => Seq::empty(),
    }
}

/// The lines on the first `n` findings.
pub open spec fn finding_lines(
    s: Seq<FindingView>,
    config: ConfigView,
    state: Entries<Entries<CloneView>>,
    facts: Seq<Seq<FactsView>>,
    fix: bool,
    n: int,
) -> Seq<Seq<char>>
    decreases n,
{
    if n <= 0 {
        Seq::empty()
    } else {
        let rest = finding_lines(s, config, state, facts, fix, n - 1);
        let warned = rest.push(warning_text(s[n - 1], config, state, facts));
        if fix && fixable(s[n - 1]) {
            warned.push(remedy_text(s[n - 1], state, facts))
        } else {
            warned
        }
    }
}

/// How many things are wrong, and how many were put right.
pub open spec fn summary_lines(issues: nat, fixed: nat, fix: bool) -> Seq<Seq<char>> {
    if issues == 0 {
        seq!["No issues found."@]
    } else if fix {
        let told = decimal_of(issues) + " issue(s) found, "@ + decimal_of(fixed) + " fixed."@;
        if issues > fixed {
            seq![
                told,
                decimal_of((issues - fixed) as nat) + " issue(s) require manual intervention."@,
            ]
        } else {
            seq![told]
        }
    } else {
        seq![
            decimal_of(issues)
                + " issue(s) found. Run with --fix to auto-repair what can be fixed."@,
        ]
    }
}

/// The lines of a report on what is wrong, and on what was put right.
pub open spec fn report_lines(
    config: ConfigView,
    state: Entries<Entries<CloneView>>,
    facts: Seq<Seq<FactsView>>,
    fix: bool,
    scope: Option<Seq<char>>,
) -> Seq<Seq<char>> {
    let s = findings(config, state, facts, scope);
    finding_lines(s, config, state, facts, fix, s.len() as int)
}

/// The lines that close a report, set off by an empty one.
pub open spec fn closing_lines(
    config: ConfigView,
    state: Entries<Entries<CloneView>>,
    facts: Seq<Seq<FactsView>>,
    fix: bool,
    scope: Option<Seq<char>>,
) -> Seq<Seq<char>> {
    let s = findings(config, state, facts, scope);
    seq![""@] + summary_lines(s.len(), fixable_count(s), fix)
}

fn label_text(state: &State, p: usize, c: usize) -> (r: String)
    requires
        p < state@.len(),
        c < state@[p as int].1.len(),
    ensures
        r@ == label(state@, p as int, c as int),
{
    let mut r = "[".to_owned();
    r.append(state.pools.name(p).as_str());
    r.append("/");
    r.append(state.pools.value(p).clones.name(c).as_str());
    r.append("]");
    r
}

fn owner_names(pool: &PoolState, facts: &Vec<CloneFacts>, branch: &str) -> (r: Vec<String>)
    requires
        facts@.len() == pool@.len(),
    ensures
        texts(r@) == owners(pool@, facts_of(facts@), branch@, pool@.len() as int),
{
    let ghost fs = facts_of(facts@);
    let mut r: Vec<String> = Vec::new();
    assert(texts(r@) =~= Seq::empty());
    let n = pool.clones.len();
    for c in 0..n
        invariant
            n == pool@.len(),
            facts@.len() == pool@.len(),
            fs == facts_of(facts@),
            texts(r@) == owners(pool@, fs, branch@, c as int),
    {
        if clone_owns(pool, facts, c, branch) {
            let ghost was = r@;
            r.push(pool.clones.name(c).clone());
            assert(texts(r@) =~= texts(was).push(pool@[c as int].0));
        }
    }
    r
}

/// What is said of something that is wrong.
fn warning(
    f: Finding,
    config: &Config,
    state: &State,
    facts: &Vec<Vec<CloneFacts>>,
    scope: Option<&str>,
) -> (r: String)
    requires
        aligned(config@, state@, all_facts(facts@), opt_str(scope)),
        arises(config@, state@, all_facts(facts@), opt_str(scope), f@),
    ensures
        r@ == warning_text(f@, config@, state@, all_facts(facts@)),
{
    let ghost fs = all_facts(facts@);
    match f {
        Finding::Orphan { pool } => {
            let mut r = "WARN: pool '".to_owned();
            r.append(state.pools.name(pool).as_str());
            r.append("' exists in state but not in config (orphaned)");
            r
        },
        Finding::Missing { pool, clone } => {
            let mut r = "WARN: ".to_owned();
            r.append(label_text(state, pool, clone).as_str());
            r.append(" path does not exist: ");
            r.append(state.pools.value(pool).clones.value(clone).path.as_str());
            r
        },
        Finding::BranchMismatch { pool, clone } => {
            assert(fs[pool as int] == facts_of(facts@[pool as int]@));
            assert(fs[pool as int][clone as int] == facts@[pool as int]@[clone as int]@);
            let mut r = "WARN: ".to_owned();
            r.append(label_text(state, pool, clone).as_str());
            if let (Some(assigned), CloneFacts::Present { branch: Ok(actual), .. }) = (
                &state.pools.value(pool).clones.value(clone).assigned_branch,
                &facts[pool][clone],
            ) {
                r.append(" branch mismatch: state says '");
                r.append(assigned.as_str());
                r.append("', actual is '");
                r.append(actual.as_str());
                r.append("'");
            }
            r
        },
        Finding::BranchUnreadable { pool, clone } => {
            assert(fs[pool as int] == facts_of(facts@[pool as int]@));
            assert(fs[pool as int][clone as int] == facts@[pool as int]@[clone as int]@);
            let mut r = "WARN: ".to_owned();
            r.append(label_text(state, pool, clone).as_str());
            if let CloneFacts::Present { branch: Err(e), .. } = &facts[pool][clone] {
                r.append(" could not read branch: ");
                r.append(e.as_str());
            }
            r
        },
        Finding::UrlMismatch { pool, clone } => {
            assert(fs[pool as int] == facts_of(facts@[pool as int]@));
            assert(fs[pool as int][clone as int] == facts@[pool as int]@[clone as int]@);
            let mut r = "WARN: ".to_owned();
            r.append(label_text(state, pool, clone).as_str());
            proof {
                lemma_place(config@.pools, state@[pool as int].0);
            }
            if let (Some(pool_config), CloneFacts::Present { remote: Ok(actual), .. }) = (
                config.pools.get(state.pools.name(pool).as_str()),
                &facts[pool][clone],
            ) {
                r.append(" remote URL mismatch: pool expects '");
                r.append(pool_config.repo_url.as_str());
                r.append("', clone has '");
                r.append(actual.as_str());
                r.append("'");
            }
            r
        },
        Finding::UrlUnreadable { pool, clone } => {
            assert(fs[pool as int] == facts_of(facts@[pool as int]@));
            assert(fs[pool as int][clone as int] == facts@[pool as int]@[clone as int]@);
            let mut r = "WARN: ".to_owned();
            r.append(label_text(state, pool, clone).as_str());
            if let CloneFacts::Present { remote: Err(e), .. } = &facts[pool][clone] {
                r.append(" could not read remote URL: ");
                r.append(e.as_str());
            }
            r
        },
        Finding::Duplicate { pool, clone } => {
            assert(fs[pool as int] == facts_of(facts@[pool as int]@));
            let mut r = "WARN: [".to_owned();
            r.append(state.pools.name(pool).as_str());
            r.append("] branch '");
            let ps = state.pools.value(pool);
            if let Some(branch) = &ps.clones.value(clone).assigned_branch {
                r.append(branch.as_str());
                r.append("' is assigned to multiple clones: ");
                let names = owner_names(ps, &facts[pool], branch.as_str());
                r.append(join_texts(&names, ", ").as_str());
            }
            r
        },
    }
}

/// What is said of something that was put right.
fn remedy(
    f: Finding,
    config: &Config,
    state: &State,
    facts: &Vec<Vec<CloneFacts>>,
    scope: Option<&str>,
) -> (r: String)
    requires
        aligned(config@, state@, all_facts(facts@), opt_str(scope)),
        arises(config@, state@, all_facts(facts@), opt_str(scope), f@),
    ensures
        r@ == remedy_text(f@, state@, all_facts(facts@)),
{
    let ghost fs = all_facts(facts@);
    match f {
        Finding::Orphan { pool } => {
            let mut r = "  FIXED: removed orphaned pool '".to_owned();
            r.append(state.pools.name(pool).as_str());
            r.append("' from state");
            r
        },
        Finding::Missing { pool, clone } => {
            let mut r = "  FIXED: removed clone '".to_owned();
            r.append(state.pools.value(pool).clones.name(clone).as_str());
            r.append("' from pool '");
            r.append(state.pools.name(pool).as_str());
            r.append("' state");
            r
        },
        Finding::BranchMismatch { pool, clone } => {
            assert(fs[pool as int] == facts_of(facts@[pool as int]@));
            assert(fs[pool as int][clone as int] == facts@[pool as int]@[clone as int]@);
            let mut r = "  FIXED: updated ".to_owned();
            r.append(label_text(state, pool, clone).as_str());
            r.append(" branch to '");
            if let CloneFacts::Present { branch: Ok(actual), .. } = &facts[pool][clone] {
                if same_text(actual.as_str(), "HEAD") {
                    r.append("(unassigned)");
                } else {
                    r.append(actual.as_str());
                }
            }
            r.append("'");
            r
        },
        _ => {
            let r = "".to_owned();
            proof {
                reveal_strlit("");
            }
            assert(r@ =~= Seq::empty());
            r
        },
    }
}

/// Whether this can be put right.
fn is_fixable(f: Finding) -> (r: bool)
    ensures
        r == fixable(f@),
{
    match f {
        Finding::Orphan { .. } => true,
        Finding::Missing { .. } => true,
        Finding::BranchMismatch { .. } => true,
        _ => false,
    }
}

fn summary(issues: usize, fixed: usize, fix: bool) -> (r: Vec<String>)
    ensures
        texts(r@) == summary_lines(issues as nat, fixed as nat, fix),
{
    if issues == 0 {
        let r = vec!["No issues found.".to_owned()];
        assert(texts(r@) =~= seq!["No issues found."@]);
        return r;
    }
    let mut told = decimal(issues as u128);
    if fix {
        told.append(" issue(s) found, ");
        told.append(decimal(fixed as u128).as_str());
        told.append(" fixed.");
        if issues > fixed {
            let mut left = decimal((issues - fixed) as u128);
            left.append(" issue(s) require manual intervention.");
            let r = vec![told, left];
            assert(texts(r@) =~= summary_lines(issues as nat, fixed as nat, fix));
            r
        } else {
            let r = vec![told];
            assert(texts(r@) =~= summary_lines(issues as nat, fixed as nat, fix));
            r
        }
    } else {
        told.append(" issue(s) found. Run with --fix to auto-repair what can be fixed.");
        let r = vec![told];
        assert(texts(r@) =~= summary_lines(issues as nat, fixed as nat, fix));
        r
    }
}

/// A look at the recorded clones.
pub struct Report {
    /// What the user is told of what is wrong, line by line.
    pub lines: Vec<String>,
    /// Whether anything was put right, so that the records are to be saved.
    pub changed: bool,
    /// What the user is told in the end, once the records are saved.
    pub closing: Vec<String>,
}

/// Looks at the recorded clones, of one pool or of all, and puts right what can be
/// put right if asked to. Gives nothing where the pool that is asked for is not set
/// up.
pub fn doctor(
    config: &Config,
    state: &mut State,
    facts: &Vec<Vec<CloneFacts>>,
    fix: bool,
    scope: Option<&str>,
) -> (r: Option<Report>)
    requires
        aligned(config@, old(state)@, all_facts(facts@), opt_str(scope)),
    ensures
        r is None == (scope is Some && !holds(config@.pools, scope->0@)),
        r matches Some(report) ==> texts(report.lines@) == report_lines(
            config@,
            old(state)@,
            all_facts(facts@),
            fix,
            opt_str(scope),
        ),
        r matches Some(report) ==> texts(report.closing@) == closing_lines(
            config@,
            old(state)@,
            all_facts(facts@),
            fix,
            opt_str(scope),
        ),
        r matches Some(report) ==> report.changed == (fix && fixable_count(
            findings(config@, old(state)@, all_facts(facts@), opt_str(scope)),
        ) > 0),
        final(state)@ == if r is Some && fix {
            repaired(config@, old(state)@, all_facts(facts@), opt_str(scope))
        } else {
            old(state)@
        },
        state_ok(old(state)@) ==> state_ok(final(state)@),
{
    if let Some(only) = scope {
        if !config.pools.contains(only) {
            return None;
        }
    }
    let ghost fs = all_facts(facts@);
    let ghost sc = opt_str(scope);
    let ghost was = state@;
    let ghost s = findings(config@, was, fs, sc);
    let all = examine(config, state, facts, scope);
    let mut lines: Vec<String> = Vec::new();
    let mut fixed: usize = 0;
    assert(texts(lines@) =~= Seq::empty());
    assert(s.take(0) =~= Seq::empty());
    for i in 0..all.len()
        invariant
            state@ == was,
            fs == all_facts(facts@),
            sc == opt_str(scope),
            s == findings(config@, was, fs, sc),
            found(all@) == s,
            aligned(config@, was, fs, sc),
            texts(lines@) == finding_lines(s, config@, was, fs, fix, i as int),
            fixed == fixable_count(s.take(i as int)),
            fixed <= i,
    {
        let f = all[i];
        proof {
            assert(s[i as int] == f@);
            assert(s.contains(f@));
            law_findings_exact(config@, was, fs, sc, f@);
            assert(s.take(i + 1).drop_last() =~= s.take(i as int));
        }
        let ghost before = lines@;
        lines.push(warning(f, config, state, facts, scope));
        assert(texts(lines@) =~= texts(before).push(warning_text(f@, config@, was, fs)));
        if is_fixable(f) {
            fixed = fixed + 1;
            if fix {
                let ghost mid = lines@;
                lines.push(remedy(f, config, state, facts, scope));
                assert(texts(lines@) =~= texts(mid).push(remedy_text(f@, was, fs)));
            }
        }
    }
    assert(s.take(all@.len() as int) =~= s);
    let mut closing = vec!["".to_owned()];
    let mut last = summary(all.len(), fixed, fix);
    let ghost added = last@;
    closing.append(&mut last);
    assert(texts(closing@) =~= seq![""@] + texts(added));
    if fix {
        repair(config, state, facts, scope);
    }
    Some(Report { lines, changed: fix && fixed > 0, closing })
}

// ---------------------------------------------------------------------------
// What holds of looking and putting right
// ---------------------------------------------------------------------------

/// What is found where every clone is looked for, if `world` says what there is at
/// each path.
pub open spec fn seen(
    world: spec_fn(Seq<char>) -> FactsView,
    state: Entries<Entries<CloneView>>,
) -> Seq<Seq<FactsView>> {
    state.map_values(
        |e: (Seq<char>, Entries<CloneView>)|
            e.1.map_values(|c: (Seq<char>, CloneView)| world(c.1.path)),
    )
}

proof fn lemma_repaired_clone(
    clones: Entries<CloneView>,
    facts: Seq<FactsView>,
    c: int,
    q: int,
) -> (k: int)
    requires
        0 <= c,
        0 <= q < repaired_clones(clones, facts, c).len(),
    ensures
        c <= k < clones.len(),
        facts[k] is Present,
        repaired_clones(clones, facts, c)[q].0 == clones[k].0,
        repaired_clones(clones, facts, c)[q].1 == (CloneView {
            branch: repaired_branch(clones[k].1.branch, facts[k]->branch),
            ..clones[k].1
        }),
    decreases clones.len() - c,
{
    let rest = repaired_clones(clones, facts, c + 1);
    match facts[c] {
        FactsView::Missing => lemma_repaired_clone(clones, facts, c + 1, q),
        FactsView::Present { branch, .. } => {
            if q == 0 {
                c
            } else {
                assert(repaired_clones(clones, facts, c)[q] == rest[q - 1]);
                lemma_repaired_clone(clones, facts, c + 1, q - 1)
            }
        },
    }
}

proof fn lemma_repaired_pool(
    config: ConfigView,
    state: Entries<Entries<CloneView>>,
    facts: Seq<Seq<FactsView>>,
    scope: Option<Seq<char>>,
    p: int,
    q: int,
) -> (k: int)
    requires
        0 <= p,
        0 <= q < repaired_pools(config, state, facts, scope, p).len(),
    ensures
        p <= k < state.len(),
        repaired_pools(config, state, facts, scope, p)[q].0 == state[k].0,
        scope is None ==> holds(config.pools, state[k].0),
        repaired_pools(config, state, facts, scope, p)[q].1 == if examined(
            config,
            scope,
            state[k].0,
        ) {
            repaired_clones(state[k].1, facts[k], 0)
        } else {
            state[k].1
        },
    decreases state.len() - p,
{
    let rest = repaired_pools(config, state, facts, scope, p + 1);
    if scope is None && !holds(config.pools, state[p].0) {
        lemma_repaired_pool(config, state, facts, scope, p + 1, q)
    } else if q == 0 {
        p
    } else {
        assert(repaired_pools(config, state, facts, scope, p)[q] == rest[q - 1]);
        lemma_repaired_pool(config, state, facts, scope, p + 1, q - 1)
    }
}

/// Once the recorded clones were put right, another look at the same world finds
/// nothing that could be put right.
pub proof fn law_repair_is_complete(
    config: ConfigView,
    state: Entries<Entries<CloneView>>,
    world: spec_fn(Seq<char>) -> FactsView,
    scope: Option<Seq<char>>,
    f: FindingView,
)
    requires
        fixable(f),
    ensures
        ({
            let after = repaired(config, state, seen(world, state), scope);
            !findings(config, after, seen(world, after), scope).contains(f)
        }),
{
    let facts = seen(world, state);
    let after = repaired(config, state, facts, scope);
    let facts_after = seen(world, after);
    law_findings_exact(config, after, facts_after, scope, f);
    if arises(config, after, facts_after, scope, f) {
        let q = pool_of(f);
        let k = lemma_repaired_pool(config, state, facts, scope, 0, q);
        if !(f is Orphan) {
            let c = clone_of(f);
            assert(after[q].1 == repaired_clones(state[k].1, facts[k], 0));
            let m = lemma_repaired_clone(state[k].1, facts[k], 0, c);
            assert(facts[k][m] == world(state[k].1[m].1.path));
            assert(facts_after[q][c] == world(after[q].1[c].1.path));
        }
        assert(false);
    }
}

/// Where nothing is found that can be put right, putting right changes nothing.
pub proof fn law_nothing_to_repair(
    config: ConfigView,
    state: Entries<Entries<CloneView>>,
    facts: Seq<Seq<FactsView>>,
    scope: Option<Seq<char>>,
)
    requires
        unique(state),
        aligned(config, state, facts, scope),
        forall|f: FindingView|
            fixable(f) ==> !#[trigger] findings(config, state, facts, scope).contains(f),
    ensures
        repaired(config, state, facts, scope) == state,
{
    lemma_nothing_to_repair(config, state, facts, scope, 0);
    assert(state.skip(0) =~= state);
}

proof fn lemma_nothing_to_repair(
    config: ConfigView,
    state: Entries<Entries<CloneView>>,
    facts: Seq<Seq<FactsView>>,
    scope: Option<Seq<char>>,
    p: int,
)
    requires
        unique(state),
        aligned(config, state, facts, scope),
        forall|f: FindingView|
            fixable(f) ==> !#[trigger] findings(config, state, facts, scope).contains(f),
        0 <= p <= state.len(),
    ensures
        repaired_pools(config, state, facts, scope, p) == state.skip(p),
    decreases state.len() - p,
{
    if p < state.len() {
        lemma_nothing_to_repair(config, state, facts, scope, p + 1);
        lemma_place_unique(state, p);
        let f = FindingView::Orphan { pool: p };
        law_findings_exact(config, state, facts, scope, f);
        assert(!findings(config, state, facts, scope).contains(f));
        if examined(config, scope, state[p].0) {
            assert forall|c: int| 0 <= c < state[p].1.len() implies #[trigger] facts[p][c]
                is Present && repaired_branch(state[p].1[c].1.branch, facts[p][c]->branch)
                == state[p].1[c].1.branch by {
                let g = FindingView::Missing { pool: p, clone: c };
                let h = FindingView::BranchMismatch { pool: p, clone: c };
                law_findings_exact(config, state, facts, scope, g);
                law_findings_exact(config, state, facts, scope, h);
                assert(!findings(config, state, facts, scope).contains(g));
                assert(!findings(config, state, facts, scope).contains(h));
            }
            lemma_clones_stay(state[p].1, facts[p], 0);
            assert(state[p].1.skip(0) =~= state[p].1);
        }
        assert(repaired_pools(config, state, facts, scope, p) =~= state.skip(p));
    }
}

proof fn lemma_clones_stay(clones: Entries<CloneView>, facts: Seq<FactsView>, c: int)
    requires
        0 <= c <= clones.len(),
        forall|k: int|
            0 <= k < clones.len() ==> #[trigger] facts[k] is Present && repaired_branch(
                clones[k].1.branch,
                facts[k]->branch,
            ) == clones[k].1.branch,
    ensures
        repaired_clones(clones, facts, c) == clones.skip(c),
    decreases clones.len() - c,
{
    if c < clones.len() {
        lemma_clones_stay(clones, facts, c + 1);
        assert(facts[c] is Present);
        assert(repaired_clones(clones, facts, c) =~= clones.skip(c));
    }
}

/// Putting right a pool that was asked for leaves every other pool alone, and no
/// pool is lost.
pub proof fn law_repair_stays_in_scope(
    config: ConfigView,
    state: Entries<Entries<CloneView>>,
    facts: Seq<Seq<FactsView>>,
    only: Seq<char>,
    p: int,
)
    requires
        0 <= p < state.len(),
    ensures
        repaired(config, state, facts, Some(only)).len() == state.len(),
        repaired(config, state, facts, Some(only))[p].0 == state[p].0,
        state[p].0 != only ==> repaired(config, state, facts, Some(only))[p] == state[p],
{
    lemma_scope(config, state, facts, only, 0);
}

proof fn lemma_scope(
    config: ConfigView,
    state: Entries<Entries<CloneView>>,
    facts: Seq<Seq<FactsView>>,
    only: Seq<char>,
    p: int,
)
    requires
        0 <= p <= state.len(),
    ensures
        ({
            let after = repaired_pools(config, state, facts, Some(only), p);
            &&& after.len() == state.len() - p
            &&& forall|q: int|
                p <= q < state.len() ==> (#[trigger] state[q]).0 == after[q - p].0 && (state[q].0
                    != only ==> after[q - p] == state[q])
        }),
    decreases state.len() - p,
{
    if p < state.len() {
        lemma_scope(config, state, facts, only, p + 1);
        let after = repaired_pools(config, state, facts, Some(only), p);
        let rest = repaired_pools(config, state, facts, Some(only), p + 1);
        assert forall|q: int| p <= q < state.len() implies (#[trigger] state[q]).0 == after[q - p].0
            && (state[q].0 != only ==> after[q - p] == state[q]) by {
            if q > p {
                assert(after[q - p] == rest[q - (p + 1)]);
            }
        }
    }
}

/// Putting right keeps every name unique, and every clone that stays keeps its
/// path, its pin and when it was last used.
pub proof fn law_repair_keeps_records(
    config: ConfigView,
    state: Entries<Entries<CloneView>>,
    facts: Seq<Seq<FactsView>>,
    scope: Option<Seq<char>>,
)
    requires
        state_ok(state),
    ensures
        state_ok(repaired(config, state, facts, scope)),
        forall|q: int, c: int|
            0 <= q < repaired(config, state, facts, scope).len() && 0 <= c < repaired(
                config,
                state,
                facts,
                scope,
            )[q].1.len() ==> exists|p: int, k: int|
                {
                    let old_entry = (#[trigger] state[p].1[k]);
                    let new_entry = (#[trigger] repaired(config, state, facts, scope)[q].1[c]);
                    &&& 0 <= p < state.len() && 0 <= k < state[p].1.len()
                    &&& state[p].0 == repaired(config, state, facts, scope)[q].0
                    &&& old_entry.0 == new_entry.0
                    &&& old_entry.1.path == new_entry.1.path
                    &&& old_entry.1.pinned == new_entry.1.pinned
                    &&& old_entry.1.last_used == new_entry.1.last_used
                },
{
    let after = repaired(config, state, facts, scope);
    lemma_repaired_unique(config, state, facts, scope, 0);
    assert forall|q: int| 0 <= q < after.len() implies unique(#[trigger] after[q].1) by {
        let k = lemma_repaired_pool(config, state, facts, scope, 0, q);
        assert(unique(state[k].1));
        lemma_repaired_clones_unique(state[k].1, facts[k], 0);
    }
    assert forall|q: int, c: int|
        0 <= q < after.len() && 0 <= c < after[q].1.len() implies exists|p: int, k: int|
        {
            let old_entry = (#[trigger] state[p].1[k]);
            let new_entry = (#[trigger] after[q].1[c]);
            &&& 0 <= p < state.len() && 0 <= k < state[p].1.len()
            &&& state[p].0 == after[q].0
            &&& old_entry.0 == new_entry.0
            &&& old_entry.1.path == new_entry.1.path
            &&& old_entry.1.pinned == new_entry.1.pinned
            &&& old_entry.1.last_used == new_entry.1.last_used
        } by {
        let p = lemma_repaired_pool(config, state, facts, scope, 0, q);
        let k = if examined(config, scope, state[p].0) {
            lemma_repaired_clone(state[p].1, facts[p], 0, c)
        } else {
            c
        };
        assert(state[p].1[k].0 == after[q].1[c].0);
    }
}

proof fn lemma_repaired_unique(
    config: ConfigView,
    state: Entries<Entries<CloneView>>,
    facts: Seq<Seq<FactsView>>,
    scope: Option<Seq<char>>,
    p: int,
)
    requires
        unique(state),
        0 <= p <= state.len(),
    ensures
        unique(repaired_pools(config, state, facts, scope, p)),
    decreases state.len() - p,
{
    if p < state.len() {
        lemma_repaired_unique(config, state, facts, scope, p + 1);
        let after = repaired_pools(config, state, facts, scope, p);
        let rest = repaired_pools(config, state, facts, scope, p + 1);
        if after != rest {
            assert forall|i: int, j: int|
                0 <= i < after.len() && 0 <= j < after.len() && #[trigger] after[i].0
                    == #[trigger] after[j].0 implies i == j by {
                if i > 0 {
                    assert(after[i] == rest[i - 1]);
                    let a = lemma_repaired_pool(config, state, facts, scope, p + 1, i - 1);
                    assert(state[a].0 != state[p].0);
                }
                if j > 0 {
                    assert(after[j] == rest[j - 1]);
                    let b = lemma_repaired_pool(config, state, facts, scope, p + 1, j - 1);
                    assert(state[b].0 != state[p].0);
                }
                if i > 0 && j > 0 {
                    assert(rest[i - 1].0 == rest[j - 1].0);
                }
            }
        }
    }
}

proof fn lemma_repaired_clones_unique(clones: Entries<CloneView>, facts: Seq<FactsView>, c: int)
    requires
        unique(clones),
        0 <= c <= clones.len(),
    ensures
        unique(repaired_clones(clones, facts, c)),
    decreases clones.len() - c,
{
    if c < clones.len() {
        lemma_repaired_clones_unique(clones, facts, c + 1);
        let after = repaired_clones(clones, facts, c);
        let rest = repaired_clones(clones, facts, c + 1);
        if facts[c] is Present {
            assert forall|i: int, j: int|
                0 <= i < after.len() && 0 <= j < after.len() && #[trigger] after[i].0
                    == #[trigger] after[j].0 implies i == j by {
                if i > 0 {
                    assert(after[i] == rest[i - 1]);
                    let a = lemma_repaired_clone(clones, facts, c + 1, i - 1);
                    assert(clones[a].0 != clones[c].0);
                }
                if j > 0 {
                    assert(after[j] == rest[j - 1]);
                    let b = lemma_repaired_clone(clones, facts, c + 1, j - 1);
                    assert(clones[b].0 != clones[c].0);
                }
                if i > 0 && j > 0 {
                    assert(rest[i - 1].0 == rest[j - 1].0);
                }
            }
        }
    }
}

/// No more is put right than was found.
pub proof fn law_fixed_among_found(s: Seq<FindingView>)
    ensures
        fixable_count(s) <= s.len(),
        fixable_count(s) == 0 <==> forall|f: FindingView|
            fixable(f) ==> !#[trigger] s.contains(f),
    decreases s.len(),
{
    broadcast use vstd::seq_lib::group_seq_properties;

    if s.len() > 0 {
        law_fixed_among_found(s.drop_last());
        assert(s =~= s.drop_last().push(s.last()));
        assert(s.contains(s.last()));
        if fixable_count(s) == 0 {
            assert forall|f: FindingView| fixable(f) implies !#[trigger] s.contains(f) by {
                assert(!s.drop_last().contains(f));
            }
        } else if fixable_count(s.drop_last()) > 0 {
            let f = choose|f: FindingView| fixable(f) && #[trigger] s.drop_last().contains(f);
            assert(s.contains(f));
        }
    }
}

/// What is found of one pool and one clone of it, thing by thing. A pool that is not set
/// up is found where no pool was asked for. Of a clone that is looked at it is found that
/// it is missing; or else that it is not on the branch that it is assigned to, that its
/// branch cannot be read though it is assigned, that it comes from elsewhere, that this
/// cannot be read, and that later clones share its branch. Nothing is found of a clone
/// that is not looked at.
pub proof fn law_findings_of_clone(
    config: ConfigView,
    state: Entries<Entries<CloneView>>,
    facts: Seq<Seq<FactsView>>,
    scope: Option<Seq<char>>,
    p: int,
    c: int,
)
    requires
        state_ok(state),
        0 <= p < state.len(),
        0 <= c < state[p].1.len(),
    ensures
        ({
            let all = findings(config, state, facts, scope);
            let looked = holds(config.pools, state[p].0) && (scope is None || scope == Some(
                state[p].0,
            ));
            let clone = state[p].1[c].1;
            let seen = facts[p][c];
            let url = lookup(config.pools, state[p].0)->0.repo_url;
            let shares = |k: int|
                0 <= k < state[p].1.len() && facts[p][k] is Present && state[p].1[k].1.branch
                    == clone.branch;
            &&& all.contains(FindingView::Orphan { pool: p }) <==> scope is None && !holds(
                config.pools,
                state[p].0,
            )
            &&& all.contains(FindingView::Missing { pool: p, clone: c }) <==> looked
                && seen is Missing
            &&& all.contains(FindingView::BranchMismatch { pool: p, clone: c }) <==> looked
                && seen is Present && clone.branch is Some && seen->branch is Ok
                && seen->branch->Ok_0 != clone.branch->0
            &&& all.contains(FindingView::BranchUnreadable { pool: p, clone: c }) <==> looked
                && seen is Present && clone.branch is Some && seen->branch is Err
            &&& all.contains(FindingView::UrlMismatch { pool: p, clone: c }) <==> looked
                && seen is Present && seen->remote is Ok && seen->remote->Ok_0 != url
            &&& all.contains(FindingView::UrlUnreadable { pool: p, clone: c }) <==> looked
                && seen is Present && seen->remote is Err
            &&& all.contains(FindingView::Duplicate { pool: p, clone: c }) <==> {
                &&& looked && clone.branch is Some && shares(c)
                &&& forall|k: int| k < c ==> !#[trigger] shares(k)
                &&& exists|k: int| k > c && #[trigger] shares(k)
            }
        }),
{
    lemma_place_unique(state, p);
    law_findings_exact(config, state, facts, scope, FindingView::Orphan { pool: p });
    law_findings_exact(config, state, facts, scope, FindingView::Missing { pool: p, clone: c });
    law_findings_exact(
        config,
        state,
        facts,
        scope,
        FindingView::BranchMismatch { pool: p, clone: c },
    );
    law_findings_exact(
        config,
        state,
        facts,
        scope,
        FindingView::BranchUnreadable { pool: p, clone: c },
    );
    law_findings_exact(config, state, facts, scope, FindingView::UrlMismatch { pool: p, clone: c });
    law_findings_exact(config, state, facts, scope, FindingView::UrlUnreadable { pool: p, clone: c });
    law_findings_exact(config, state, facts, scope, FindingView::Duplicate { pool: p, clone: c });
    let clone = state[p].1[c].1;
    let shares = |k: int|
        0 <= k < state[p].1.len() && facts[p][k] is Present && state[p].1[k].1.branch
            == clone.branch;
    if let Some(b) = clone.branch {
        assert forall|k: int| 0 <= k < state[p].1.len() implies owns(state[p].1, facts[p], k, b)
            == #[trigger] shares(k) by {}
        if duplicated(state[p].1, facts[p], c) {
            let k = choose|k: int|
                c < k < state[p].1.len() && #[trigger] owns(state[p].1, facts[p], k, b);
            assert(shares(k));
            assert forall|k: int| k < c implies !#[trigger] shares(k) by {
                if 0 <= k {
                    assert(!owns(state[p].1, facts[p], k, b));
                }
            }
        }
        if shares(c) && (forall|k: int| k < c ==> !#[trigger] shares(k)) && (exists|k: int|
            k > c && #[trigger] shares(k)) {
            let k = choose|k: int| k > c && #[trigger] shares(k);
            assert(owns(state[p].1, facts[p], k, b));
            assert forall|j: int| 0 <= j < c implies !#[trigger] owns(
                state[p].1,
                facts[p],
                j,
                b,
            ) by {
                assert(!shares(j));
            }
            assert(owns(state[p].1, facts[p], c, b) == shares(c));
            assert(duplicated(state[p].1, facts[p], c));
        }
    }
}

/// Nothing is found twice.
pub proof fn law_found_once(
    config: ConfigView,
    state: Entries<Entries<CloneView>>,
    facts: Seq<Seq<FactsView>>,
    scope: Option<Seq<char>>,
)
    requires
        unique(config.pools),
        unique(state),
    ensures
        findings(config, state, facts, scope).no_duplicates(),
{
    let clones = walked(config, state, facts, scope, config.pools.len() as int);
    lemma_walked_once(config, state, facts, scope, config.pools.len() as int);
    if scope is None {
        let lost = orphans(config, state, state.len() as int);
        lemma_orphans_once(config, state, state.len() as int);
        assert forall|f: FindingView| !(lost.contains(f) && #[trigger] clones.contains(f)) by {
            lemma_orphans(config, state, state.len() as int, f);
            lemma_walked(config, state, facts, scope, config.pools.len() as int, f);
        }
        lemma_once_after(lost, clones);
    }
}

proof fn lemma_once_after(a: Seq<FindingView>, b: Seq<FindingView>)
    requires
        a.no_duplicates(),
        b.no_duplicates(),
        forall|f: FindingView| !(a.contains(f) && #[trigger] b.contains(f)),
    ensures
        (a + b).no_duplicates(),
{
    let s = a + b;
    assert forall|i: int, j: int| 0 <= i < s.len() && 0 <= j < s.len() && i != j implies s[i]
        != s[j] by {
        if i < a.len() && j < a.len() {
            assert(a[i] != a[j]);
        } else if i >= a.len() && j >= a.len() {
            assert(b[i - a.len()] != b[j - a.len()]);
        } else if i < a.len() {
            assert(a.contains(a[i]));
            assert(b.contains(b[j - a.len()]));
        } else {
            assert(a.contains(a[j]));
            assert(b.contains(b[i - a.len()]));
        }
    }
}

proof fn lemma_orphans_once(config: ConfigView, state: Entries<Entries<CloneView>>, n: int)
    requires
        0 <= n <= state.len(),
    ensures
        orphans(config, state, n).no_duplicates(),
    decreases n,
{
    if n > 0 {
        lemma_orphans_once(config, state, n - 1);
        let before = orphans(config, state, n - 1);
        let f = FindingView::Orphan { pool: n - 1 };
        lemma_orphans(config, state, n - 1, f);
        if !holds(config.pools, state[n - 1].0) {
            assert(before + seq![f] =~= before.push(f));
            lemma_once_after(before, seq![f]);
        }
    }
}

proof fn lemma_clones_once(
    p: int,
    clones: Entries<CloneView>,
    facts: Seq<FactsView>,
    url: Seq<char>,
    n: int,
)
    requires
        0 <= n <= clones.len(),
    ensures
        clones_findings(p, clones, facts, url, n).no_duplicates(),
    decreases n,
{
    if n > 0 {
        lemma_clones_once(p, clones, facts, url, n - 1);
        let before = clones_findings(p, clones, facts, url, n - 1);
        let more = clone_findings(p, n - 1, clones[n - 1].1, facts[n - 1], url);
        assert(more.no_duplicates());
        assert forall|f: FindingView| !(before.contains(f) && #[trigger] more.contains(f)) by {
            lemma_clones_findings(p, clones, facts, url, n - 1, f);
            lemma_clone_findings(p, n - 1, clones[n - 1].1, facts[n - 1], url, f);
            if before.contains(f) {
                let c = choose|c: int|
                    0 <= c < n - 1 && (#[trigger] clone_findings(
                        p,
                        c,
                        clones[c].1,
                        facts[c],
                        url,
                    )).contains(f);
                lemma_clone_findings(p, c, clones[c].1, facts[c], url, f);
            }
        }
        lemma_once_after(before, more);
    }
}

proof fn lemma_duplicates_once(
    p: int,
    clones: Entries<CloneView>,
    facts: Seq<FactsView>,
    n: int,
)
    ensures
        duplicates(p, clones, facts, n).no_duplicates(),
    decreases n,
{
    if n > 0 {
        lemma_duplicates_once(p, clones, facts, n - 1);
        let before = duplicates(p, clones, facts, n - 1);
        let f = FindingView::Duplicate { pool: p, clone: n - 1 };
        lemma_duplicates(p, clones, facts, n - 1, f);
        if duplicated(clones, facts, n - 1) {
            assert(before + seq![f] =~= before.push(f));
            lemma_once_after(before, seq![f]);
        }
    }
}

proof fn lemma_walked_once(
    config: ConfigView,
    state: Entries<Entries<CloneView>>,
    facts: Seq<Seq<FactsView>>,
    scope: Option<Seq<char>>,
    n: int,
)
    requires
        unique(config.pools),
        0 <= n <= config.pools.len(),
    ensures
        walked(config, state, facts, scope, n).no_duplicates(),
    decreases n,
{
    if n > 0 {
        lemma_walked_once(config, state, facts, scope, n - 1);
        let before = walked(config, state, facts, scope, n - 1);
        let name = config.pools[n - 1].0;
        lemma_place(state, name);
        assert(holds(config.pools, name));
        if let Some(p) = place(state, name) {
            if scope is None || scope == Some(name) {
                let clones = state[p].1;
                let url = repo_url(config, name);
                let each = clones_findings(p, clones, facts[p], url, clones.len() as int);
                let shared = duplicates(p, clones, facts[p], clones.len() as int);
                lemma_clones_once(p, clones, facts[p], url, clones.len() as int);
                lemma_duplicates_once(p, clones, facts[p], clones.len() as int);
                assert forall|f: FindingView| !(each.contains(f) && #[trigger] shared.contains(
                    f,
                )) by {
                    lemma_duplicates(p, clones, facts[p], clones.len() as int, f);
                    lemma_clones_findings(p, clones, facts[p], url, clones.len() as int, f);
                    if each.contains(f) {
                        let c = choose|c: int|
                            0 <= c < clones.len() && (#[trigger] clone_findings(
                                p,
                                c,
                                clones[c].1,
                                facts[p][c],
                                url,
                            )).contains(f);
                        lemma_clone_findings(p, c, clones[c].1, facts[p][c], url, f);
                    }
                }
                lemma_once_after(each, shared);
                let more = pool_findings(p, clones, facts[p], url);
                assert forall|f: FindingView| !(before.contains(f) && #[trigger] more.contains(
                    f,
                )) by {
                    lemma_walked(config, state, facts, scope, n - 1, f);
                    lemma_pool_findings(config, state, facts, scope, p, f);
                    if before.contains(f) && more.contains(f) {
                        let i = choose|i: int|
                            0 <= i < n - 1 && #[trigger] config.pools[i].0 == state[pool_of(f)].0;
                        assert(config.pools[i].0 == config.pools[n - 1].0);
                    }
                }
                lemma_once_after(before, more);
            }
        }
    }
}

/// What a repair makes of the record of a clone that is looked at. One that is missing is
/// taken out. One that is assigned and found on another branch is recorded with that
/// branch, or with none if it is on none. Every other record stays as it is, and of each
/// nothing changes but the branch.
pub proof fn law_repaired_record(
    config: ConfigView,
    state: Entries<Entries<CloneView>>,
    facts: Seq<Seq<FactsView>>,
    scope: Option<Seq<char>>,
    p: int,
    c: int,
)
    requires
        state_ok(state),
        0 <= p < state.len(),
        0 <= c < state[p].1.len(),
        holds(config.pools, state[p].0),
        scope is None || scope == Some(state[p].0),
    ensures
        ({
            let after = clones_of(repaired(config, state, facts, scope), state[p].0);
            let (name, clone) = state[p].1[c];
            match facts[p][c] {
                FactsView::Missing => !holds(after, name),
                FactsView::Present { branch, .. } => lookup(after, name) == Some(
                    if clone.branch is Some && branch is Ok && branch->Ok_0 != clone.branch->0 {
                        if branch->Ok_0 == "HEAD"@ {
                            CloneView { branch: None, ..clone }
                        } else {
                            CloneView { branch: Some(branch->Ok_0), ..clone }
                        }
                    } else {
                        clone
                    },
                ),
            }
        }),
{
    let all = repaired(config, state, facts, scope);
    let q = lemma_pool_stays(config, state, facts, scope, 0, p);
    law_repair_keeps_records(config, state, facts, scope);
    lemma_place_unique(all, q);
    let after = repaired_clones(state[p].1, facts[p], 0);
    assert(clones_of(all, state[p].0) == after);
    let name = state[p].1[c].0;
    lemma_place(after, name);
    assert(unique(state[p].1));
    if facts[p][c] is Missing {
        if holds(after, name) {
            let k = lemma_repaired_clone(state[p].1, facts[p], 0, place(after, name)->0);
            assert(state[p].1[k].0 == state[p].1[c].0);
        }
    } else {
        let k = lemma_clone_stays(state[p].1, facts[p], 0, c);
        lemma_repaired_clones_unique(state[p].1, facts[p], 0);
        lemma_place_unique(after, k);
    }
}

/// What a repair leaves alone: the pools that are not looked at, but for those that are
/// not set up where no pool was asked for, which are forgotten.
pub proof fn law_repair_elsewhere(
    config: ConfigView,
    state: Entries<Entries<CloneView>>,
    facts: Seq<Seq<FactsView>>,
    scope: Option<Seq<char>>,
    p: int,
)
    requires
        state_ok(state),
        0 <= p < state.len(),
    ensures
        ({
            let after = repaired(config, state, facts, scope);
            let name = state[p].0;
            &&& scope is None && !holds(config.pools, name) ==> !holds(after, name)
            &&& scope is Some && scope != Some(name) ==> lookup(after, name) == Some(state[p].1)
            &&& scope == Some(name) && !holds(config.pools, name) ==> lookup(after, name) == Some(
                state[p].1,
            )
            &&& scope is Some || holds(config.pools, name) ==> holds(after, name)
        }),
{
    let after = repaired(config, state, facts, scope);
    let name = state[p].0;
    law_repair_keeps_records(config, state, facts, scope);
    lemma_place(after, name);
    if scope is None && !holds(config.pools, name) {
        if holds(after, name) {
            let k = lemma_repaired_pool(config, state, facts, scope, 0, place(after, name)->0);
            assert(state[k].0 == state[p].0);
        }
    } else {
        let q = lemma_pool_stays(config, state, facts, scope, 0, p);
        lemma_place_unique(after, q);
    }
}

proof fn lemma_pool_stays(
    config: ConfigView,
    state: Entries<Entries<CloneView>>,
    facts: Seq<Seq<FactsView>>,
    scope: Option<Seq<char>>,
    from: int,
    p: int,
) -> (q: int)
    requires
        0 <= from <= p < state.len(),
        scope is Some || holds(config.pools, state[p].0),
    ensures
        0 <= q < repaired_pools(config, state, facts, scope, from).len(),
        repaired_pools(config, state, facts, scope, from)[q] == (
            state[p].0,
            if examined(config, scope, state[p].0) {
                repaired_clones(state[p].1, facts[p], 0)
            } else {
                state[p].1
            },
        ),
    decreases p - from,
{
    let all = repaired_pools(config, state, facts, scope, from);
    let rest = repaired_pools(config, state, facts, scope, from + 1);
    if from == p {
        0
    } else {
        let q = lemma_pool_stays(config, state, facts, scope, from + 1, p);
        if scope is None && !holds(config.pools, state[from].0) {
            q
        } else {
            assert(all[q + 1] == rest[q]);
            q + 1
        }
    }
}

proof fn lemma_clone_stays(
    clones: Entries<CloneView>,
    facts: Seq<FactsView>,
    from: int,
    c: int,
) -> (q: int)
    requires
        0 <= from <= c < clones.len(),
        facts[c] is Present,
    ensures
        0 <= q < repaired_clones(clones, facts, from).len(),
        repaired_clones(clones, facts, from)[q] == (
            clones[c].0,
            CloneView {
                branch: repaired_branch(clones[c].1.branch, facts[c]->branch),
                ..clones[c].1
            },
        ),
    decreases c - from,
{
    let all = repaired_clones(clones, facts, from);
    let rest = repaired_clones(clones, facts, from + 1);
    if from == c {
        0
    } else {
        let q = lemma_clone_stays(clones, facts, from + 1, c);
        if facts[from] is Missing {
            q
        } else {
            assert(all[q + 1] == rest[q]);
            q + 1
        }
    }
}

/// What is said of each thing that is wrong: which pool and clone it is, and what was
/// expected and found there.
pub proof fn law_warning_words(
    config: ConfigView,
    state: Entries<Entries<CloneView>>,
    facts: Seq<Seq<FactsView>>,
    p: int,
    c: int,
)
    ensures
        ({
            let pool = state[p].0;
            let (name, clone) = state[p].1[c];
            let place = "WARN: "@ + ("["@ + pool + "/"@ + name + "]"@);
            let said = |f: FindingView| warning_text(f, config, state, facts);
            &&& said(FindingView::Orphan { pool: p }) == "WARN: pool '"@ + pool
                + "' exists in state but not in config (orphaned)"@
            &&& said(FindingView::Missing { pool: p, clone: c }) == place
                + " path does not exist: "@ + clone.path
            &&& said(FindingView::BranchMismatch { pool: p, clone: c }) == place
                + " branch mismatch: state says '"@ + clone.branch->0 + "', actual is '"@
                + facts[p][c]->branch->Ok_0 + "'"@
            &&& said(FindingView::BranchUnreadable { pool: p, clone: c }) == place
                + " could not read branch: "@ + facts[p][c]->branch->Err_0
            &&& said(FindingView::UrlMismatch { pool: p, clone: c }) == place
                + " remote URL mismatch: pool expects '"@ + lookup(config.pools, pool)->0.repo_url
                + "', clone has '"@ + facts[p][c]->remote->Ok_0 + "'"@
            &&& said(FindingView::UrlUnreadable { pool: p, clone: c }) == place
                + " could not read remote URL: "@ + facts[p][c]->remote->Err_0
            &&& said(FindingView::Duplicate { pool: p, clone: c }) == "WARN: ["@ + pool
                + "] branch '"@ + clone.branch->0 + "' is assigned to multiple clones: "@ + joined(
                owners(state[p].1, facts[p], clone.branch->0, state[p].1.len() as int),
                ", "@,
            )
        }),
{
}

/// The clones that are named as sharing a branch are those that are there and assigned to
/// it, as they are listed.
pub proof fn law_owner_names(
    clones: Entries<CloneView>,
    facts: Seq<FactsView>,
    branch: Seq<char>,
    n: int,
)
    requires
        0 <= n < clones.len(),
    ensures
        owners(clones, facts, branch, 0) == Seq::<Seq<char>>::empty(),
        owners(clones, facts, branch, n + 1) == if facts[n] is Present && clones[n].1.branch == Some(
            branch,
        ) {
            owners(clones, facts, branch, n).push(clones[n].0)
        } else {
            owners(clones, facts, branch, n)
        },
{
}

/// What a report says: a warning for each thing that is wrong, followed by what was done
/// about it if it was put right; and in the end how many things were found, how many were
/// put right and how many are left.
pub proof fn law_report_words(
    s: Seq<FindingView>,
    config: ConfigView,
    state: Entries<Entries<CloneView>>,
    facts: Seq<Seq<FactsView>>,
    n: int,
    p: int,
    c: int,
    issues: nat,
    fixed: nat,
)
    requires
        0 <= n < s.len(),
        issues > 0,
    ensures
        ({
            let lines = |fix: bool, k: int| finding_lines(s, config, state, facts, fix, k);
            let mends = s[n] is Orphan || s[n] is Missing || s[n] is BranchMismatch;
            let warned = warning_text(s[n], config, state, facts);
            let pool = state[p].0;
            let name = state[p].1[c].0;
            let actual = facts[p][c]->branch->Ok_0;
            &&& lines(true, 0) == Seq::<Seq<char>>::empty() && lines(false, 0) == Seq::<
                Seq<char>,
            >::empty()
            &&& lines(false, n + 1) == lines(false, n).push(warned)
            &&& !mends ==> lines(true, n + 1) == lines(true, n).push(warned)
            &&& mends ==> lines(true, n + 1) == lines(true, n).push(warned).push(
                remedy_text(s[n], state, facts),
            )
            &&& remedy_text(FindingView::Orphan { pool: p }, state, facts)
                == "  FIXED: removed orphaned pool '"@ + pool + "' from state"@
            &&& remedy_text(FindingView::Missing { pool: p, clone: c }, state, facts)
                == "  FIXED: removed clone '"@ + name + "' from pool '"@ + pool + "' state"@
            &&& remedy_text(FindingView::BranchMismatch { pool: p, clone: c }, state, facts)
                == "  FIXED: updated "@ + ("["@ + pool + "/"@ + name + "]"@) + " branch to '"@ + (
            if actual == "HEAD"@ {
                "(unassigned)"@
            } else {
                actual
            }) + "'"@
            &&& summary_lines(0, fixed, true) == seq!["No issues found."@]
            &&& summary_lines(0, fixed, false) == seq!["No issues found."@]
            &&& summary_lines(issues, fixed, false) == seq![
                decimal_of(issues)
                    + " issue(s) found. Run with --fix to auto-repair what can be fixed."@,
            ]
            &&& fixed >= issues ==> summary_lines(issues, fixed, true) == seq![
                decimal_of(issues) + " issue(s) found, "@ + decimal_of(fixed) + " fixed."@,
            ]
            &&& fixed < issues ==> summary_lines(issues, fixed, true) == seq![
                decimal_of(issues) + " issue(s) found, "@ + decimal_of(fixed) + " fixed."@,
                decimal_of((issues - fixed) as nat) + " issue(s) require manual intervention."@,
            ]
        }),
{
}

/// Of the things that are found, exactly those are counted as put right that can be.
pub proof fn law_count_of_fixed(s: Seq<FindingView>, f: FindingView)
    ensures
        fixable_count(Seq::empty()) == 0,
        fixable_count(s.push(f)) == fixable_count(s) + if f is Orphan || f is Missing
            || f is BranchMismatch {
            1nat
        } else {
            0nat
        },
{
    assert(s.push(f).drop_last() =~= s);
}

/// A pool is found to be left over just where it is recorded but not set up, and no pool
/// was asked for; whether it has clones does not matter.
pub proof fn law_orphan_is_found(
    config: ConfigView,
    state: Entries<Entries<CloneView>>,
    facts: Seq<Seq<FactsView>>,
    scope: Option<Seq<char>>,
    p: int,
)
    requires
        0 <= p < state.len(),
    ensures
        findings(config, state, facts, scope).contains(FindingView::Orphan { pool: p })
            <==> scope is None && forall|k: int|
            0 <= k < config.pools.len() ==> (#[trigger] config.pools[k]).0 != state[p].0,
{
    law_findings_exact(config, state, facts, scope, FindingView::Orphan { pool: p });
}

proof fn lemma_warned(
    s: Seq<FindingView>,
    config: ConfigView,
    state: Entries<Entries<CloneView>>,
    facts: Seq<Seq<FactsView>>,
    n: int,
)
    requires
        0 <= n <= s.len(),
    ensures
        finding_lines(s, config, state, facts, false, n) == s.take(n).map_values(
            |f: FindingView| warning_text(f, config, state, facts),
        ),
        finding_lines(s, config, state, facts, true, n).len() == n + fixable_count(s.take(n)),
    decreases n,
{
    let told = |f: FindingView| warning_text(f, config, state, facts);
    if n > 0 {
        lemma_warned(s, config, state, facts, n - 1);
        assert(s.take(n).drop_last() =~= s.take(n - 1));
        assert(s.take(n).map_values(told) =~= s.take(n - 1).map_values(told).push(told(s[n - 1])));
    } else {
        assert(s.take(0).map_values(told) =~= Seq::empty());
    }
}

proof fn lemma_counted(s: Seq<FindingView>)
    ensures
        fixable_count(s) == s.filter(
            |f: FindingView| f is Orphan || f is Missing || f is BranchMismatch,
        ).len(),
        fixable_count(s) <= s.len(),
    decreases s.len(),
{
    reveal(Seq::filter);
    if s.len() > 0 {
        lemma_counted(s.drop_last());
    }
}

/// What the user reads in the end. A report that mends nothing is one warning for each
/// thing that is found, in order; one that mends has one line more for each thing that is
/// left over, missing or on another branch. An empty line follows, and how many things
/// were found, how many of them were put right and how many are left.
pub proof fn law_whole_report(
    config: ConfigView,
    state: Entries<Entries<CloneView>>,
    facts: Seq<Seq<FactsView>>,
    scope: Option<Seq<char>>,
    k: int,
)
    ensures
        ({
            let all = findings(config, state, facts, scope);
            let plain = report_lines(config, state, facts, false, scope);
            let mended = all.filter(
                |f: FindingView| f is Orphan || f is Missing || f is BranchMismatch,
            ).len();
            &&& plain.len() == all.len()
            &&& 0 <= k < all.len() ==> plain[k] == warning_text(all[k], config, state, facts)
            &&& report_lines(config, state, facts, true, scope).len() == all.len() + mended
            &&& all.len() == 0 ==> forall|fix: bool| #[trigger]
                closing_lines(config, state, facts, fix, scope) == seq![""@, "No issues found."@]
            &&& all.len() > 0 ==> closing_lines(config, state, facts, false, scope) == seq![
                ""@,
                decimal_of(all.len())
                    + " issue(s) found. Run with --fix to auto-repair what can be fixed."@,
            ]
            &&& all.len() > mended ==> closing_lines(config, state, facts, true, scope) == seq![
                ""@,
                decimal_of(all.len()) + " issue(s) found, "@ + decimal_of(mended) + " fixed."@,
                decimal_of((all.len() - mended) as nat)
                    + " issue(s) require manual intervention."@,
            ]
            &&& all.len() > 0 && all.len() == mended ==> closing_lines(
                config,
                state,
                facts,
                true,
                scope,
            ) == seq![
                ""@,
                decimal_of(all.len()) + " issue(s) found, "@ + decimal_of(mended) + " fixed."@,
            ]
        }),
{
    let all = findings(config, state, facts, scope);
    lemma_counted(all);
    lemma_warned(all, config, state, facts, all.len() as int);
    assert(all.take(all.len() as int) =~= all);
    let mended = fixable_count(all);
    let found = decimal_of(all.len());
    let told = found + " issue(s) found, "@ + decimal_of(mended) + " fixed."@;
    let left = decimal_of((all.len() - mended) as nat) + " issue(s) require manual intervention."@;
    let run = found + " issue(s) found. Run with --fix to auto-repair what can be fixed."@;
    assert(seq![""@] + seq!["No issues found."@] =~= seq![""@, "No issues found."@]);
    assert(seq![""@] + seq![run] =~= seq![""@, run]);
    assert(seq![""@] + seq![told] =~= seq![""@, told]);
    assert(seq![""@] + seq![told, left] =~= seq![""@, told, left]);
}

} // verus!
