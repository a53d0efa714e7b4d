//! Commands on single clones and whole pools: dropping an assignment, pinning,
//! finding a clone, and removing a pool.

use vstd::prelude::*;

use crate::model::{
    clones_of, law_put_clones, lemma_clones_unique, state_ok, BranchCache, CloneView, Config,
    ConfigView, PoolState, State,
};
use crate::resolve::{find_clone, target_clone, CloneError};
use crate::selection::sooner;
use crate::table::{
    holds, law_put, law_without, lemma_place, lemma_same_names, lookup, place, put, unique, without,
    Entries,
};
use crate::text::{copy_opt, join_texts, joined, opt_str, opt_text, texts};
use crate::table::lemma_place_unique;

verus! {

/// The clones with another record at `i`.
pub open spec fn with_clone(clones: Entries<CloneView>, i: int, clone: CloneView) -> Entries<
    CloneView,
> {
    clones.update(i, (clones[i].0, clone))
}

/// The clones with the one at `i` unassigned.
pub open spec fn unassigned(clones: Entries<CloneView>, i: int) -> Entries<CloneView> {
    with_clone(clones, i, CloneView { branch: None, ..clones[i].1 })
}

/// The clones with the one at `i` pinned or not.
pub open spec fn with_pin(clones: Entries<CloneView>, i: int, pinned: bool) -> Entries<CloneView> {
    with_clone(clones, i, CloneView { pinned, ..clones[i].1 })
}

proof fn lemma_edit_keeps_state_ok(state: Entries<Entries<CloneView>>, pool: Seq<char>)
    ensures
        forall|i: int, clone: CloneView|
            state_ok(state) && 0 <= i < clones_of(state, pool).len() ==> state_ok(
                put(state, pool, #[trigger] with_clone(clones_of(state, pool), i, clone)),
            ),
{
    let clones = clones_of(state, pool);
    assert forall|i: int, clone: CloneView|
        state_ok(state) && 0 <= i < clones.len() implies state_ok(
        put(state, pool, #[trigger] with_clone(clones, i, clone)),
    ) by {
        lemma_clones_unique(state, pool);
        lemma_same_names(clones, with_clone(clones, i, clone), pool);
        law_put_clones(state, pool, with_clone(clones, i, clone));
    }
}

/// A clone that was dropped.
pub struct Dropped {
    /// The name of the clone.
    pub clone: String,
    /// The branch that it was assigned to.
    pub branch: Option<String>,
}

/// Unassigns a clone of a pool so that it can be reused.
pub fn drop_clone(state: &mut State, pool: &str, clone: Option<&str>, cwd: &str) -> (r: Result<
    Dropped,
    CloneError,
>)
    ensures
        ({
            let clones = clones_of(old(state)@, pool@);
            match target_clone(clones, opt_str(clone), cwd@) {
                Ok(i) => {
                    &&& r matches Ok(d) && d.clone@ == clones[i].0 && opt_text(d.branch)
                        == clones[i].1.branch
                    &&& final(state)@ == put(old(state)@, pool@, unassigned(clones, i))
                },
                Err(e) => {
                    &&& r matches Err(f) && f == e
                    &&& final(state)@ == old(state)@
                },
            }
        }),
        state_ok(old(state)@) ==> state_ok(final(state)@),
{
    proof {
        lemma_edit_keeps_state_ok(state@, pool@);
    }
    match state.pools.position(pool) {
        Some(at) => {
            let ps = state.pools.value_mut(at);
            match find_clone(ps, clone, cwd) {
                Ok(i) => {
                    let name = ps.clones.name(i).clone();
                    let cs = ps.clones.value_mut(i);
                    let branch = copy_opt(&cs.assigned_branch);
                    cs.assigned_branch = None;
                    Ok(Dropped { clone: name, branch })
                },
                Err(e) => {
                    assert(state@ =~= old(state)@);
                    Err(e)
                },
            }
        },
        None => {
            let none = PoolState::new();
            match find_clone(&none, clone, cwd) {
                Ok(_) => Err(CloneError::NotFound),
                Err(e) => Err(e),
            }
        },
    }
}

impl Dropped {
    /// What the user is told.
    pub open spec fn text(clone: Seq<char>, branch: Option<Seq<char>>) -> Seq<char> {
        match branch {
            Some(b) => "Dropped assignment: "@ + clone + " -> "@ + b,
            None => "Clone '"@ + clone + "' was not assigned"@,
        }
    }

    /// What the user is told.
    pub fn message(&self) -> (r: String)
        ensures
            r@ == Dropped::text(self.clone@, opt_text(self.branch)),
    {
        match &self.branch {
            Some(b) => {
                let mut r = "Dropped assignment: ".to_owned();
                r.append(self.clone.as_str());
                r.append(" -> ");
                r.append(b.as_str());
                r
            },
            None => {
                let mut r = "Clone '".to_owned();
                r.append(self.clone.as_str());
                r.append("' was not assigned");
                r
            },
        }
    }
}

/// A clone that was to be pinned or unpinned.
pub struct Pinning {
    /// The name of the clone.
    pub clone: String,
    /// Whether it is pinned now.
    pub pinned: bool,
    /// Whether it was otherwise before.
    pub changed: bool,
}

/// Pins a clone of a pool, or unpins it.
pub fn set_pinned(
    state: &mut State,
    pool: &str,
    clone: Option<&str>,
    cwd: &str,
    pinned: bool,
) -> (r: Result<Pinning, CloneError>)
    ensures
        ({
            let clones = clones_of(old(state)@, pool@);
            match target_clone(clones, opt_str(clone), cwd@) {
                Ok(i) => {
                    &&& r matches Ok(p) && p.clone@ == clones[i].0 && p.pinned == pinned
                        && p.changed == (clones[i].1.pinned != pinned)
                    &&& final(state)@ == put(old(state)@, pool@, with_pin(clones, i, pinned))
                },
                Err(e) => {
                    &&& r matches Err(f) && f == e
                    &&& final(state)@ == old(state)@
                },
            }
        }),
        state_ok(old(state)@) ==> state_ok(final(state)@),
{
    proof {
        lemma_edit_keeps_state_ok(state@, pool@);
    }
    match state.pools.position(pool) {
        Some(at) => {
            let ps = state.pools.value_mut(at);
            match find_clone(ps, clone, cwd) {
                Ok(i) => {
                    let name = ps.clones.name(i).clone();
                    let cs = ps.clones.value_mut(i);
                    let changed = cs.pinned != pinned;
                    cs.pinned = pinned;
                    Ok(Pinning { clone: name, pinned, changed })
                },
                Err(e) => {
                    assert(state@ =~= old(state)@);
                    Err(e)
                },
            }
        },
        None => {
            let none = PoolState::new();
            match find_clone(&none, clone, cwd) {
                Ok(_) => Err(CloneError::NotFound),
                Err(e) => Err(e),
            }
        },
    }
}

impl Pinning {
    /// What the user is told.
    pub open spec fn text(clone: Seq<char>, pinned: bool, changed: bool) -> Seq<char> {
        if pinned {
            if changed {
                "Pinned clone '"@ + clone + "'"@
            } else {
                "Clone '"@ + clone + "' is already pinned"@
            }
        } else {
            if changed {
                "Unpinned clone '"@ + clone + "'"@
            } else {
                "Clone '"@ + clone + "' is not pinned"@
            }
        }
    }

    /// What the user is told.
    pub fn message(&self) -> (r: String)
        ensures
            r@ == Pinning::text(self.clone@, self.pinned, self.changed),
    {
        if self.changed {
            let mut r = if self.pinned {
                "Pinned clone '".to_owned()
            } else {
                "Unpinned clone '".to_owned()
            };
            r.append(self.clone.as_str());
            r.append("'");
            r
        } else {
            let mut r = "Clone '".to_owned();
            r.append(self.clone.as_str());
            if self.pinned {
                r.append("' is already pinned");
            } else {
                r.append("' is not pinned");
            }
            r
        }
    }
}

proof fn lemma_without_keeps_state_ok(state: Entries<Entries<CloneView>>, name: Seq<char>)
    requires
        state_ok(state),
    ensures
        state_ok(without(state, name)),
{
    law_without(state, name, name);
    lemma_place(state, name);
    let after = without(state, name);
    assert forall|p: int| 0 <= p < after.len() implies unique(#[trigger] after[p].1) by {
        match place(state, name) {
            Some(i) => {
                let q = if p < i {
                    p
                } else {
                    p + 1
                };
                assert(after[p] == state[q]);
            },
            None => {},
        }
    }
}

/// Removes a pool from the configuration and forgets its clones and branches; the
/// clones themselves stay where they are. Says whether the pool was set up.
pub fn rm_pool(config: &mut Config, state: &mut State, cache: &mut BranchCache, name: &str) -> (r:
    bool)
    ensures
        r == holds(old(config)@.pools, name@),
        final(config)@.root == old(config)@.root,
        r ==> {
            &&& final(config)@.pools == without(old(config)@.pools, name@)
            &&& final(state)@ == without(old(state)@, name@)
            &&& final(cache)@ == without(old(cache)@, name@)
        },
        !r ==> {
            &&& final(config)@.pools == old(config)@.pools
            &&& final(state)@ == old(state)@
            &&& final(cache)@ == old(cache)@
        },
        state_ok(old(state)@) ==> state_ok(final(state)@),
{
    proof {
        if state_ok(state@) {
            lemma_without_keeps_state_ok(state@, name@);
        }
    }
    if !config.pools.contains(name) {
        return false;
    }
    let _had_config = config.pools.remove(name);
    let _had_state = state.pools.remove(name);
    let _had_branches = cache.pools.remove(name);
    true
}

/// What the user is told of a pool that is not set up.
pub open spec fn unknown_pool_text(name: Seq<char>) -> Seq<char> {
    "Pool '"@ + name + "' not found"@
}

/// What the user is told of a pool that is not set up.
pub fn unknown_pool_message(name: &str) -> (r: String)
    ensures
        r@ == unknown_pool_text(name@),
{
    let mut r = "Pool '".to_owned();
    r.append(name);
    r.append("' not found");
    r
}

/// Why a clone's path cannot be told.
#[derive(Clone, Copy, Debug, PartialEq, Eq, Structural)]
pub enum CdError {
    /// The pool that was asked for is not known.
    UnknownPool,
    /// The pool that was asked for has no such clone.
    NotInPool,
    /// No pool has such a clone.
    Nowhere,
    /// Several pools have such a clone.
    Ambiguous,
}

/// The pools, as they are listed, that have a clone of this name.
pub open spec fn pools_with(state: Entries<Entries<CloneView>>, name: Seq<char>) -> Entries<
    Entries<CloneView>,
> {
    state.filter(|e: (Seq<char>, Entries<CloneView>)| holds(e.1, name))
}

/// Where a clone is: in the pool that is asked for, else in the only pool that has
/// a clone of this name.
pub open spec fn clone_path(
    state: Entries<Entries<CloneView>>,
    name: Seq<char>,
    pool: Option<Seq<char>>,
) -> Result<Seq<char>, CdError> {
    match pool {
        Some(p) => match lookup(state, p) {
            Some(clones) => match lookup(clones, name) {
                Some(clone) => Ok(clone.path),
                None => Err(CdError::NotInPool),
            },
            None => Err(CdError::UnknownPool),
        },
        None => {
            let found = pools_with(state, name);
            if found.len() == 0 {
                Err(CdError::Nowhere)
            } else if found.len() == 1 {
                Ok(lookup(found[0].1, name)->0.path)
            } else {
                Err(CdError::Ambiguous)
            }
        },
    }
}

/// How one of several clones of the same name is listed.
pub open spec fn option_text(e: (Seq<char>, Entries<CloneView>), name: Seq<char>) -> Seq<char> {
    "  "@ + lookup(e.1, name)->0.path + " (pool: "@ + e.0 + ")"@
}

/// How the clones of a name are listed, one for each pool that has one.
pub open spec fn options_of(state: Entries<Entries<CloneView>>, name: Seq<char>) -> Seq<Seq<char>> {
    pools_with(state, name).map_values(
        |e: (Seq<char>, Entries<CloneView>)| option_text(e, name),
    )
}

/// The paths of the clones of a name with how each is listed.
fn clones_named(state: &State, name: &str) -> (r: (Vec<String>, Vec<String>))
    ensures
        texts(r.0@) == pools_with(state@, name@).map_values(
            |e: (Seq<char>, Entries<CloneView>)| lookup(e.1, name@)->0.path,
        ),
        texts(r.1@) == options_of(state@, name@),
{
    let ghost p = |e: (Seq<char>, Entries<CloneView>)| holds(e.1, name@);
    let ghost path = |e: (Seq<char>, Entries<CloneView>)| lookup(e.1, name@)->0.path;
    let ghost option = |e: (Seq<char>, Entries<CloneView>)| option_text(e, name@);
    let mut paths: Vec<String> = Vec::new();
    let mut options: Vec<String> = Vec::new();
    proof {
        reveal(Seq::filter);
        assert(state@.take(0) =~= Seq::empty());
        assert(texts(paths@) =~= state@.take(0).filter(p).map_values(path));
        assert(texts(options@) =~= state@.take(0).filter(p).map_values(option));
    }
    let n = state.pools.len();
    for i in 0..n
        invariant
            n == state@.len(),
            p == (|e: (Seq<char>, Entries<CloneView>)| holds(e.1, name@)),
            path == (|e: (Seq<char>, Entries<CloneView>)| lookup(e.1, name@)->0.path),
            option == (|e: (Seq<char>, Entries<CloneView>)| option_text(e, name@)),
            texts(paths@) == state@.take(i as int).filter(p).map_values(path),
            texts(options@) == state@.take(i as int).filter(p).map_values(option),
    {
        let ghost before = state@.take(i as int).filter(p);
        proof {
            reveal(Seq::filter);
            assert(state@.take(i + 1).drop_last() =~= state@.take(i as int));
            lemma_place(state@[i as int].1, name@);
        }
        if let Some(cs) = state.pools.value(i).clones.get(name) {
            let mut line = "  ".to_owned();
            line.append(cs.path.as_str());
            line.append(" (pool: ");
            line.append(state.pools.name(i).as_str());
            line.append(")");
            let ghost a = paths@;
            let ghost b = options@;
            paths.push(cs.path.clone());
            options.push(line);
            proof {
                assert(state@.take(i + 1).filter(p) == before.push(state@[i as int]));
                assert(before.push(state@[i as int]).map_values(path) =~= before.map_values(
                    path,
                ).push(path(state@[i as int])));
                assert(before.push(state@[i as int]).map_values(option) =~= before.map_values(
                    option,
                ).push(option(state@[i as int])));
                assert(texts(paths@) =~= texts(a).push(path(state@[i as int])));
                assert(texts(options@) =~= texts(b).push(option(state@[i as int])));
            }
        }
    }
    assert(state@.take(n as int) =~= state@);
    (paths, options)
}

/// Finds where a clone is.
pub fn cd(state: &State, name: &str, pool: Option<&str>) -> (r: Result<String, CdError>)
    ensures
        r matches Ok(path) ==> clone_path(state@, name@, opt_str(pool)) == Ok::<Seq<char>, CdError>(
            path@,
        ),
        r matches Err(e) ==> clone_path(state@, name@, opt_str(pool)) == Err::<Seq<char>, CdError>(
            e,
        ),
{
    match pool {
        Some(p) => match state.pools.get(p) {
            Some(ps) => match ps.clones.get(name) {
                Some(cs) => Ok(cs.path.clone()),
                None => Err(CdError::NotInPool),
            },
            None => Err(CdError::UnknownPool),
        },
        None => {
            let (paths, _options) = clones_named(state, name);
            assert(texts(paths@).len() == pools_with(state@, name@).len());
            if paths.len() == 0 {
                Err(CdError::Nowhere)
            } else if paths.len() == 1 {
                assert(texts(paths@)[0] == paths@[0]@);
                Ok(paths[0].clone())
            } else {
                Err(CdError::Ambiguous)
            }
        },
    }
}

impl CdError {
    /// What the user is told.
    pub open spec fn text(
        self,
        state: Entries<Entries<CloneView>>,
        name: Seq<char>,
        pool: Seq<char>,
    ) -> Seq<char> {
        match self {
            CdError::UnknownPool => unknown_pool_text(pool),
            CdError::NotInPool => "No clone '"@ + name + "' in pool '"@ + pool + "'"@,
            CdError::Nowhere => "No clone named '"@ + name + "' found in any pool"@,
            CdError::Ambiguous => "Clone '"@ + name
                + "' exists in multiple pools. Use -p <pool> to disambiguate:\n"@ + joined(
                options_of(state, name),
                "\n"@,
            ),
        }
    }

    /// What the user is told: `pool` is the pool that was asked for.
    pub fn message(&self, state: &State, name: &str, pool: &str) -> (r: String)
        ensures
            r@ == self.text(state@, name@, pool@),
    {
        match self {
            CdError::UnknownPool => unknown_pool_message(pool),
            CdError::NotInPool => {
                let mut r = "No clone '".to_owned();
                r.append(name);
                r.append("' in pool '");
                r.append(pool);
                r.append("'");
                r
            },
            CdError::Nowhere => {
                let mut r = "No clone named '".to_owned();
                r.append(name);
                r.append("' found in any pool");
                r
            },
            CdError::Ambiguous => {
                let (_paths, options) = clones_named(state, name);
                let mut r = "Clone '".to_owned();
                r.append(name);
                r.append("' exists in multiple pools. Use -p <pool> to disambiguate:\n");
                r.append(join_texts(&options, "\n").as_str());
                r
            },
        }
    }
}

// ---------------------------------------------------------------------------
// What holds of these commands
// ---------------------------------------------------------------------------

/// Dropping a clone changes nothing but its assignment, and dropping it again
/// changes nothing at all.
pub proof fn law_drop(clones: Entries<CloneView>, i: int, k: int)
    requires
        0 <= i < clones.len(),
        0 <= k < clones.len(),
    ensures
        unassigned(clones, i).len() == clones.len(),
        unassigned(clones, i)[i].1.branch is None,
        unassigned(unassigned(clones, i), i) == unassigned(clones, i),
        k != i ==> unassigned(clones, i)[k] == clones[k],
        unassigned(clones, i)[k].0 == clones[k].0,
        unassigned(clones, i)[k].1.path == clones[k].1.path,
        unassigned(clones, i)[k].1.pinned == clones[k].1.pinned,
        unassigned(clones, i)[k].1.last_used == clones[k].1.last_used,
{
    assert(unassigned(unassigned(clones, i), i) =~= unassigned(clones, i));
}

/// Pinning and unpinning change nothing but the pin: assignments stay. Doing it
/// twice is doing it once, and unpinning a clone that was pinned from unpinned
/// brings everything back.
pub proof fn law_pin(clones: Entries<CloneView>, i: int, k: int, pinned: bool)
    requires
        0 <= i < clones.len(),
        0 <= k < clones.len(),
    ensures
        with_pin(clones, i, pinned).len() == clones.len(),
        with_pin(clones, i, pinned)[i].1.pinned == pinned,
        with_pin(with_pin(clones, i, pinned), i, pinned) == with_pin(clones, i, pinned),
        with_pin(with_pin(clones, i, pinned), i, clones[i].1.pinned) == clones,
        k != i ==> with_pin(clones, i, pinned)[k] == clones[k],
        with_pin(clones, i, pinned)[k].0 == clones[k].0,
        with_pin(clones, i, pinned)[k].1.branch == clones[k].1.branch,
        with_pin(clones, i, pinned)[k].1.path == clones[k].1.path,
        with_pin(clones, i, pinned)[k].1.last_used == clones[k].1.last_used,
{
    assert(with_pin(with_pin(clones, i, pinned), i, pinned) =~= with_pin(clones, i, pinned));
    assert(with_pin(with_pin(clones, i, pinned), i, clones[i].1.pinned) =~= clones);
}

/// A clone that was dropped is tried before every clone that is assigned to a
/// branch.
pub proof fn law_dropped_clone_comes_first(clones: Entries<CloneView>, i: int, j: int)
    requires
        0 <= i < clones.len(),
        0 <= j < clones.len(),
        i != j,
        clones[j].1.branch is Some,
    ensures
        sooner(unassigned(clones, i), i, j),
{
}

/// A clone that was pinned is tried after every clone that is not pinned and just as
/// assigned or free as it is.
pub proof fn law_pinned_clone_comes_later(clones: Entries<CloneView>, i: int, j: int)
    requires
        0 <= i < clones.len(),
        0 <= j < clones.len(),
        i != j,
        !clones[j].1.pinned,
        (clones[i].1.branch is Some) == (clones[j].1.branch is Some),
    ensures
        sooner(with_pin(clones, i, true), j, i),
{
}

/// Changing one record of one pool leaves every other pool as it is and no name
/// twice.
pub proof fn law_edit_keeps_others(
    state: Entries<Entries<CloneView>>,
    pool: Seq<char>,
    i: int,
    clone: CloneView,
    other: Seq<char>,
)
    requires
        state_ok(state),
        0 <= i < clones_of(state, pool).len(),
    ensures
        ({
            let after = put(state, pool, with_clone(clones_of(state, pool), i, clone));
            &&& state_ok(after)
            &&& clones_of(after, pool) == with_clone(clones_of(state, pool), i, clone)
            &&& other != pool ==> clones_of(after, other) == clones_of(state, other)
            &&& holds(after, other) == holds(state, other)
        }),
{
    lemma_edit_keeps_state_ok(state, pool);
    law_put(state, pool, with_clone(clones_of(state, pool), i, clone), other);
    lemma_place(state, pool);
}

/// A pool that was removed is gone from the configuration, from the clones and from
/// the branches, and every other pool is as it was.
pub proof fn law_removed_pool_is_gone(
    config: ConfigView,
    state: Entries<Entries<CloneView>>,
    cache: Entries<Seq<Seq<char>>>,
    name: Seq<char>,
    other: Seq<char>,
)
    requires
        unique(config.pools),
        state_ok(state),
        unique(cache),
    ensures
        !holds(without(config.pools, name), name),
        !holds(without(state, name), name),
        !holds(without(cache, name), name),
        other != name ==> {
            &&& lookup(without(config.pools, name), other) == lookup(config.pools, other)
            &&& lookup(without(state, name), other) == lookup(state, other)
            &&& lookup(without(cache, name), other) == lookup(cache, other)
        },
        state_ok(without(state, name)),
{
    law_without(config.pools, name, other);
    law_without(state, name, other);
    law_without(cache, name, other);
    lemma_without_keeps_state_ok(state, name);
}

/// A clone whose name no other pool uses is found without naming its pool, and in
/// the same place as when its pool is named.
pub proof fn law_cd_without_pool(
    state: Entries<Entries<CloneView>>,
    pool: Seq<char>,
    name: Seq<char>,
)
    requires
        state_ok(state),
        holds(state, pool),
        holds(clones_of(state, pool), name),
        forall|p: int|
            0 <= p < state.len() && #[trigger] state[p].0 != pool ==> !holds(state[p].1, name),
    ensures
        clone_path(state, name, None) == clone_path(state, name, Some(pool)),
        clone_path(state, name, None) is Ok,
{
    let p = |e: (Seq<char>, Entries<CloneView>)| holds(e.1, name);
    lemma_place(state, pool);
    let at = place(state, pool)->0;
    lemma_place(state[at].1, name);
    assert forall|k: int| 0 <= k < state.len() implies (p(#[trigger] state[k]) <==> k == at) by {
        if k != at {
            assert(state[k].0 != pool) by {
                if state[k].0 == pool {
                    assert(state[at].0 == state[k].0);
                }
            }
        }
    }
    lemma_filter_one(state, p, at);
    assert(pools_with(state, name) == seq![state[at]]);
}

proof fn lemma_filter_none<A>(s: Seq<A>, p: spec_fn(A) -> bool)
    requires
        forall|k: int| 0 <= k < s.len() ==> !p(#[trigger] s[k]),
    ensures
        s.filter(p) == Seq::<A>::empty(),
    decreases s.len(),
{
    reveal(Seq::filter);
    if s.len() > 0 {
        assert(forall|k: int| 0 <= k < s.drop_last().len() ==> s.drop_last()[k] == #[trigger] s[k]);
        lemma_filter_none(s.drop_last(), p);
    }
}

proof fn lemma_filter_one<A>(s: Seq<A>, p: spec_fn(A) -> bool, at: int)
    requires
        0 <= at < s.len(),
        forall|k: int| 0 <= k < s.len() ==> (p(#[trigger] s[k]) <==> k == at),
    ensures
        s.filter(p) == seq![s[at]],
    decreases s.len(),
{
    reveal(Seq::filter);
    let rest = s.drop_last();
    assert(forall|k: int| 0 <= k < rest.len() ==> #[trigger] rest[k] == s[k]);
    if at == s.len() - 1 {
        lemma_filter_none(rest, p);
        assert(s.filter(p) =~= seq![s[at]]);
    } else {
        lemma_filter_one(rest, p, at);
        assert(!p(s[s.len() - 1]));
    }
}

/// Where a clone is, in a pool that is asked for: where the record of that name in that
/// pool says, whatever other pools there are.
pub proof fn law_cd_in_pool(
    state: Entries<Entries<CloneView>>,
    name: Seq<char>,
    pool: Seq<char>,
    p: int,
    c: int,
)
    requires
        state_ok(state),
    ensures
        0 <= p < state.len() && state[p].0 == pool && 0 <= c < state[p].1.len()
            && state[p].1[c].0 == name ==> clone_path(state, name, Some(pool)) == Ok::<
            Seq<char>,
            CdError,
        >(state[p].1[c].1.path),
        0 <= p < state.len() && state[p].0 == pool && !holds(state[p].1, name) ==> clone_path(
            state,
            name,
            Some(pool),
        ) == Err::<Seq<char>, CdError>(CdError::NotInPool),
        !holds(state, pool) ==> clone_path(state, name, Some(pool)) == Err::<Seq<char>, CdError>(
            CdError::UnknownPool,
        ),
{
    lemma_place(state, pool);
    if 0 <= p < state.len() && state[p].0 == pool {
        lemma_place_unique(state, p);
        assert(unique(state[p].1));
        lemma_place(state[p].1, name);
        if 0 <= c < state[p].1.len() && state[p].1[c].0 == name {
            lemma_place_unique(state[p].1, c);
        }
    }
}

/// Where a clone is, if no pool is asked for: it is found if and only if exactly one
/// pool has a clone of that name, and then where that pool's record says.
pub proof fn law_cd_anywhere(state: Entries<Entries<CloneView>>, name: Seq<char>, p: int, q: int)
    requires
        state_ok(state),
        0 <= p < state.len(),
        0 <= q < state.len(),
    ensures
        (forall|k: int| 0 <= k < state.len() ==> !holds((#[trigger] state[k]).1, name))
            ==> clone_path(state, name, None) == Err::<Seq<char>, CdError>(CdError::Nowhere),
        p != q && holds(state[p].1, name) && holds(state[q].1, name) ==> clone_path(
            state,
            name,
            None,
        ) == Err::<Seq<char>, CdError>(CdError::Ambiguous),
        holds(state[p].1, name) && (forall|k: int|
            0 <= k < state.len() && k != p ==> !holds((#[trigger] state[k]).1, name))
            ==> clone_path(state, name, None) == clone_path(state, name, Some(state[p].0))
            && clone_path(state, name, None) is Ok,
{
    let has = |e: (Seq<char>, Entries<CloneView>)| holds(e.1, name);
    if forall|k: int| 0 <= k < state.len() ==> !holds((#[trigger] state[k]).1, name) {
        lemma_filter_none(state, has);
    }
    if p != q && has(state[p]) && has(state[q]) {
        let a = if p < q {
            p
        } else {
            q
        };
        let b = if p < q {
            q
        } else {
            p
        };
        lemma_filter_two(state, has, a, b);
    }
    if holds(state[p].1, name) && (forall|k: int|
        0 <= k < state.len() && k != p ==> !holds((#[trigger] state[k]).1, name)) {
        lemma_place_unique(state, p);
        assert forall|k: int| 0 <= k < state.len() && #[trigger] state[k].0
            != state[p].0 implies !holds(state[k].1, name) by {
            assert(k != p);
        }
        law_cd_without_pool(state, state[p].0, name);
    }
}

proof fn lemma_filter_two<A>(s: Seq<A>, f: spec_fn(A) -> bool, a: int, b: int)
    requires
        0 <= a < b < s.len(),
        f(s[a]),
        f(s[b]),
    ensures
        s.filter(f).len() >= 2,
    decreases s.len(),
{
    reveal(Seq::filter);
    let rest = s.drop_last();
    if b == s.len() - 1 {
        lemma_filter_some(rest, f, a);
    } else {
        lemma_filter_two(rest, f, a, b);
    }
}

proof fn lemma_filter_some<A>(s: Seq<A>, f: spec_fn(A) -> bool, a: int)
    requires
        0 <= a < s.len(),
        f(s[a]),
    ensures
        s.filter(f).len() >= 1,
    decreases s.len(),
{
    reveal(Seq::filter);
    if a < s.len() - 1 {
        lemma_filter_some(s.drop_last(), f, a);
    }
}

/// What dropping does to the records, seen from outside: the clone that is meant is given
/// to no branch, and every other clone and pool is as before.
pub proof fn law_drop_by_name(
    state: Entries<Entries<CloneView>>,
    pool: Seq<char>,
    i: int,
    k: int,
    other: Seq<char>,
)
    requires
        state_ok(state),
        0 <= i < clones_of(state, pool).len(),
        0 <= k < clones_of(state, pool).len(),
    ensures
        ({
            let then = clones_of(state, pool);
            let after = put(state, pool, unassigned(then, i));
            let now = clones_of(after, pool);
            &&& now.len() == then.len()
            &&& now[i].0 == then[i].0 && now[i].1 == (CloneView { branch: None, ..then[i].1 })
            &&& k != i ==> now[k] == then[k]
            &&& other != pool ==> clones_of(after, other) == clones_of(state, other)
        }),
{
    law_edit_keeps_others(state, pool, i, CloneView { branch: None, ..clones_of(state, pool)[i].1 }, other);
}

/// What pinning and unpinning do to the records, seen from outside: the clone that is
/// meant has the pin or not, and every other clone and pool is as before.
pub proof fn law_pin_by_name(
    state: Entries<Entries<CloneView>>,
    pool: Seq<char>,
    i: int,
    k: int,
    other: Seq<char>,
    pinned: bool,
)
    requires
        state_ok(state),
        0 <= i < clones_of(state, pool).len(),
        0 <= k < clones_of(state, pool).len(),
    ensures
        ({
            let then = clones_of(state, pool);
            let after = put(state, pool, with_pin(then, i, pinned));
            let now = clones_of(after, pool);
            &&& now.len() == then.len()
            &&& now[i].0 == then[i].0 && now[i].1 == (CloneView { pinned, ..then[i].1 })
            &&& k != i ==> now[k] == then[k]
            &&& other != pool ==> clones_of(after, other) == clones_of(state, other)
        }),
{
    law_edit_keeps_others(state, pool, i, CloneView { pinned, ..clones_of(state, pool)[i].1 }, other);
}

/// What the user is told of a clone names it, and the branch that it had.
pub proof fn law_clone_words(
    state: Entries<Entries<CloneView>>,
    clone: Seq<char>,
    branch: Seq<char>,
    pool: Seq<char>,
)
    ensures
        Dropped::text(clone, Some(branch)) == "Dropped assignment: "@ + clone + " -> "@ + branch,
        Dropped::text(clone, None) == "Clone '"@ + clone + "' was not assigned"@,
        Pinning::text(clone, true, true) == "Pinned clone '"@ + clone + "'"@,
        Pinning::text(clone, true, false) == "Clone '"@ + clone + "' is already pinned"@,
        Pinning::text(clone, false, true) == "Unpinned clone '"@ + clone + "'"@,
        Pinning::text(clone, false, false) == "Clone '"@ + clone + "' is not pinned"@,
        CdError::UnknownPool.text(state, clone, pool) == "Pool '"@ + pool + "' not found"@,
        CdError::NotInPool.text(state, clone, pool) == "No clone '"@ + clone + "' in pool '"@ + pool
            + "'"@,
        CdError::Nowhere.text(state, clone, pool) == "No clone named '"@ + clone
            + "' found in any pool"@,
{
}

/// Where a name is ambiguous, the user is told of every clone that bears it: where it is,
/// and in which pool.
pub proof fn law_ambiguous_clone_is_listed(
    state: Entries<Entries<CloneView>>,
    name: Seq<char>,
    p: int,
)
    requires
        0 <= p < state.len(),
        holds(state[p].1, name),
    ensures
        options_of(state, name).contains(
            "  "@ + lookup(state[p].1, name)->0.path + " (pool: "@ + state[p].0 + ")"@,
        ),
        CdError::Ambiguous.text(state, name, name) == "Clone '"@ + name
            + "' exists in multiple pools. Use -p <pool> to disambiguate:\n"@ + joined(
            options_of(state, name),
            "\n"@,
        ),
{
    let has = |e: (Seq<char>, Entries<CloneView>)| holds(e.1, name);
    lemma_filter_keeps(state, has, p);
    let found = state.filter(has);
    let k = choose|k: int| 0 <= k < found.len() && found[k] == state[p];
    assert(options_of(state, name)[k] == option_text(state[p], name));
}

proof fn lemma_filter_keeps<A>(s: Seq<A>, f: spec_fn(A) -> bool, a: int)
    requires
        0 <= a < s.len(),
        f(s[a]),
    ensures
        s.filter(f).contains(s[a]),
    decreases s.len(),
{
    broadcast use vstd::seq_lib::group_seq_properties;

    reveal(Seq::filter);
    let rest = s.drop_last();
    if a == s.len() - 1 {
        assert(s.filter(f).last() == s[a]);
        assert(s.filter(f).contains(s.filter(f).last()));
    } else {
        lemma_filter_keeps(rest, f, a);
        assert(rest[a] == s[a]);
    }
}

} // verus!
