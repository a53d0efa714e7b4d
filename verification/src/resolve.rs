//! Which pool, and which clone of it, a command is about.

use vstd::prelude::*;

use crate::model::{pool_dir, pool_place, CloneView, Config, ConfigView, PoolState, State};
use crate::names::{law_valid_name_is_component, valid_name};
use crate::path::{components, path_within, within};
use crate::search::{first_where, lemma_first_where, lemma_is_first, lemma_no_first};
use crate::table::{holds, lemma_place, lemma_place_unique, names, place, unique, Entries};
use crate::text::{join_texts, joined, opt_str};
use crate::path::join;

verus! {

/// Why no pool was found.
#[derive(Clone, Copy, Debug, PartialEq, Eq, Structural)]
pub enum ResolveError {
    /// The pool that was asked for is not set up.
    UnknownPool,
    /// No pool was asked for, and the current directory belongs to none.
    Undetected,
}

/// The first pool whose directory the current directory lies in.
pub open spec fn pool_by_dir(config: ConfigView, cwd: Seq<char>) -> Option<int> {
    first_where(
        config.pools,
        |e: (Seq<char>, crate::model::PoolConfigView)| within(cwd, pool_place(config, e.0)),
    )
}

/// The first clone that the current directory lies in.
pub open spec fn clone_around(clones: Entries<CloneView>, cwd: Seq<char>) -> Option<int> {
    first_where(clones, |e: (Seq<char>, CloneView)| within(cwd, e.1.path))
}

/// The first pool that is set up and has a clone that the current directory lies
/// in.
pub open spec fn pool_by_clone(
    config: ConfigView,
    state: Entries<Entries<CloneView>>,
    cwd: Seq<char>,
) -> Option<int> {
    first_where(
        state,
        |e: (Seq<char>, Entries<CloneView>)|
            holds(config.pools, e.0) && clone_around(e.1, cwd) is Some,
    )
}

/// The pool that a command is about: the one that was asked for, else the one
/// whose directory, else the one whose clone the current directory lies in.
pub open spec fn resolved(
    config: ConfigView,
    state: Entries<Entries<CloneView>>,
    asked: Option<Seq<char>>,
    cwd: Seq<char>,
) -> Result<Seq<char>, ResolveError> {
    match asked {
        Some(name) => if holds(config.pools, name) {
            Ok(name)
        } else {
            Err(ResolveError::UnknownPool)
        },
        None => match pool_by_dir(config, cwd) {
            Some(i) => Ok(config.pools[i].0),
            None => match pool_by_clone(config, state, cwd) {
                Some(i) => Ok(state[i].0),
                None => Err(ResolveError::Undetected),
            },
        },
    }
}

fn find_pool_by_dir(config: &Config, cwd: &str) -> (r: Option<usize>)
    ensures
        r matches Some(i) ==> i < config@.pools.len() && pool_by_dir(config@, cwd@) == Some(
            i as int,
        ),
        r is None ==> pool_by_dir(config@, cwd@) is None,
{
    let ghost p = |e: (Seq<char>, crate::model::PoolConfigView)|
        within(cwd@, pool_place(config@, e.0));
    let n = config.pools.len();
    for i in 0..n
        invariant
            n == config.pools@.len(),
            p == (|e: (Seq<char>, crate::model::PoolConfigView)|
                within(cwd@, pool_place(config@, e.0))),
            forall|j: int| 0 <= j < i ==> !p(#[trigger] config@.pools[j]),
    {
        let dir = pool_dir(config, config.pools.name(i).as_str());
        if path_within(cwd, dir.as_str()) {
            proof {
                lemma_is_first(config@.pools, p, i as int);
            }
            return Some(i);
        }
    }
    proof {
        lemma_no_first(config@.pools, p);
    }
    None
}

/// The first clone of the pool that the current directory lies in.
pub fn current_clone(pool: &PoolState, cwd: &str) -> (r: Option<usize>)
    ensures
        r matches Some(i) ==> i < pool@.len() && clone_around(pool@, cwd@) == Some(i as int),
        r is None ==> clone_around(pool@, cwd@) is None,
{
    let ghost p = |e: (Seq<char>, CloneView)| within(cwd@, e.1.path);
    let n = pool.clones.len();
    for i in 0..n
        invariant
            n == pool.clones@.len(),
            p == (|e: (Seq<char>, CloneView)| within(cwd@, e.1.path)),
            forall|j: int| 0 <= j < i ==> !p(#[trigger] pool@[j]),
    {
        if path_within(cwd, pool.clones.value(i).path.as_str()) {
            proof {
                lemma_is_first(pool@, p, i as int);
            }
            return Some(i);
        }
    }
    proof {
        lemma_no_first(pool@, p);
    }
    None
}

fn find_pool_by_clone(config: &Config, state: &State, cwd: &str) -> (r: Option<usize>)
    ensures
        r matches Some(i) ==> i < state@.len() && pool_by_clone(config@, state@, cwd@) == Some(
            i as int,
        ),
        r is None ==> pool_by_clone(config@, state@, cwd@) is None,
{
    let ghost p = |e: (Seq<char>, Entries<CloneView>)|
        holds(config@.pools, e.0) && clone_around(e.1, cwd@) is Some;
    let n = state.pools.len();
    for i in 0..n
        invariant
            n == state.pools@.len(),
            p == (|e: (Seq<char>, Entries<CloneView>)|
                holds(config@.pools, e.0) && clone_around(e.1, cwd@) is Some),
            forall|j: int| 0 <= j < i ==> !p(#[trigger] state@[j]),
    {
        if config.pools.contains(state.pools.name(i).as_str()) && current_clone(
            state.pools.value(i),
            cwd,
        ).is_some() {
            proof {
                lemma_is_first(state@, p, i as int);
            }
            return Some(i);
        }
    }
    proof {
        lemma_no_first(state@, p);
    }
    None
}

/// The pool that a command is about. The current directory matters only where no
/// pool is asked for.
pub fn resolve_pool(config: &Config, state: &State, cli_pool: Option<&str>, cwd: &str) -> (r:
    Result<String, ResolveError>)
    ensures
        r matches Ok(name) ==> resolved(config@, state@, opt_str(cli_pool), cwd@) == Ok::<
            Seq<char>,
            ResolveError,
        >(name@),
        r matches Err(e) ==> resolved(config@, state@, opt_str(cli_pool), cwd@) == Err::<
            Seq<char>,
            ResolveError,
        >(e),
        r matches Ok(name) ==> holds(config@.pools, name@),
{
    proof {
        law_resolved_is_configured(config@, state@, opt_str(cli_pool), cwd@);
    }
    match cli_pool {
        Some(name) => if config.pools.contains(name) {
            Ok(name.to_owned())
        } else {
            Err(ResolveError::UnknownPool)
        },
        None => match find_pool_by_dir(config, cwd) {
            Some(i) => Ok(config.pools.name(i).clone()),
            None => match find_pool_by_clone(config, state, cwd) {
                Some(i) => Ok(state.pools.name(i).clone()),
                None => Err(ResolveError::Undetected),
            },
        },
    }
}

impl ResolveError {
    /// What the user is told.
    pub open spec fn text(self, config: ConfigView, asked: Seq<char>, cwd: Seq<char>) -> Seq<char> {
        match self {
            ResolveError::UnknownPool => "Pool '"@ + asked + "' not found. Available pools: "@
                + joined(names(config.pools), ", "@),
            ResolveError::Undetected =>
                "Could not detect pool from current directory.\nUse -p <pool> to specify a pool, or cd to a pool directory.\nCurrent dir: "@
                + cwd,
        }
    }

    /// What the user is told: `asked` is the pool that was asked for.
    pub fn message(&self, config: &Config, asked: &str, cwd: &str) -> (r: String)
        ensures
            r@ == self.text(config@, asked@, cwd@),
    {
        match self {
            ResolveError::UnknownPool => {
                let mut r = "Pool '".to_owned();
                r.append(asked);
                r.append("' not found. Available pools: ");
                r.append(join_texts(&config.pools.all_names(), ", ").as_str());
                r
            },
            ResolveError::Undetected => {
                let mut r =
                    "Could not detect pool from current directory.\nUse -p <pool> to specify a pool, or cd to a pool directory.\nCurrent dir: ".to_owned();
                r.append(cwd);
                r
            },
        }
    }
}

/// Why no clone was found.
#[derive(Clone, Copy, Debug, PartialEq, Eq, Structural)]
pub enum CloneError {
    /// No clone was asked for, and the current directory lies in none.
    NotInClone,
    /// The clone that was asked for is not in the pool.
    NotFound,
}

/// The clone that a command is about: the one that was asked for, else the one
/// that the current directory lies in.
pub open spec fn target_clone(
    clones: Entries<CloneView>,
    asked: Option<Seq<char>>,
    cwd: Seq<char>,
) -> Result<int, CloneError> {
    match asked {
        Some(name) => match place(clones, name) {
            Some(i) => Ok(i),
            None => Err(CloneError::NotFound),
        },
        None => match clone_around(clones, cwd) {
            Some(i) => Ok(i),
            None => Err(CloneError::NotInClone),
        },
    }
}

/// The clone that a command is about.
pub fn find_clone(pool: &PoolState, clone: Option<&str>, cwd: &str) -> (r: Result<
    usize,
    CloneError,
>)
    ensures
        r matches Ok(i) ==> i < pool@.len() && target_clone(pool@, opt_str(clone), cwd@) == Ok::<
            int,
            CloneError,
        >(i as int),
        r matches Err(e) ==> target_clone(pool@, opt_str(clone), cwd@) == Err::<int, CloneError>(e),
{
    match clone {
        Some(name) => match pool.clones.position(name) {
            Some(i) => Ok(i),
            None => Err(CloneError::NotFound),
        },
        None => match current_clone(pool, cwd) {
            Some(i) => Ok(i),
            None => Err(CloneError::NotInClone),
        },
    }
}

impl CloneError {
    /// What the user is told.
    pub open spec fn text(self, asked: Seq<char>) -> Seq<char> {
        match self {
            CloneError::NotInClone => "Not in a clone directory. Specify clone name."@,
            CloneError::NotFound => "Clone '"@ + asked + "' not found"@,
        }
    }

    /// What the user is told: `asked` is the clone that was asked for.
    pub fn message(&self, asked: &str) -> (r: String)
        ensures
            r@ == self.text(asked@),
    {
        match self {
            CloneError::NotInClone => "Not in a clone directory. Specify clone name.".to_owned(),
            CloneError::NotFound => {
                let mut r = "Clone '".to_owned();
                r.append(asked);
                r.append("' not found");
                r
            },
        }
    }
}

/// A pool that is found is set up.
pub proof fn law_resolved_is_configured(
    config: ConfigView,
    state: Entries<Entries<CloneView>>,
    asked: Option<Seq<char>>,
    cwd: Seq<char>,
)
    ensures
        resolved(config, state, asked, cwd) matches Ok(name) ==> holds(config.pools, name),
{
    if asked is None {
        lemma_first_where(
            config.pools,
            |e: (Seq<char>, crate::model::PoolConfigView)| within(cwd, pool_place(config, e.0)),
        );
        lemma_first_where(
            state,
            |e: (Seq<char>, Entries<CloneView>)|
                holds(config.pools, e.0) && clone_around(e.1, cwd) is Some,
        );
        if let Some(i) = pool_by_dir(config, cwd) {
            assert(config.pools[i].0 == config.pools[i].0);
        }
    }
}

/// A pool that is asked for by name is the one, wherever the command is run and
/// whatever clones there are.
pub proof fn law_asked_pool_wins(
    config: ConfigView,
    state: Entries<Entries<CloneView>>,
    other_state: Entries<Entries<CloneView>>,
    name: Seq<char>,
    cwd: Seq<char>,
    other_cwd: Seq<char>,
)
    ensures
        resolved(config, state, Some(name), cwd) == resolved(
            config,
            other_state,
            Some(name),
            other_cwd,
        ),
        holds(config.pools, name) <==> resolved(config, state, Some(name), cwd) == Ok::<
            Seq<char>,
            ResolveError,
        >(name),
{
}

/// Inside the directory of a pool, commands are about that pool, in whatever order
/// the pools are listed.
pub proof fn law_pool_dir_decides(
    config: ConfigView,
    state: Entries<Entries<CloneView>>,
    name: Seq<char>,
    cwd: Seq<char>,
)
    requires
        forall|i: int| 0 <= i < config.pools.len() ==> valid_name(#[trigger] config.pools[i].0),
        holds(config.pools, name),
        within(cwd, pool_place(config, name)),
    ensures
        resolved(config, state, None, cwd) == Ok::<Seq<char>, ResolveError>(name),
{
    let p = |e: (Seq<char>, crate::model::PoolConfigView)| within(cwd, pool_place(config, e.0));
    lemma_first_where(config.pools, p);
    lemma_place(config.pools, name);
    let k = place(config.pools, name)->0;
    assert(p(config.pools[k]));
    let i = pool_by_dir(config, cwd)->0;
    let found = config.pools[i].0;
    assert(valid_name(config.pools[i].0) && valid_name(config.pools[k].0));
    law_valid_name_is_component(config.root, found);
    law_valid_name_is_component(config.root, name);
    let here = components(cwd);
    let a = components(config.root).push(found);
    let b = components(config.root).push(name);
    assert(a =~= here.subrange(0, a.len() as int));
    assert(b =~= here.subrange(0, b.len() as int));
    assert(a.last() == here[a.len() - 1]);
    assert(b.last() == here[b.len() - 1]);
}

/// In a pool where no clone occurs twice, naming the clone that the current
/// directory lies in is the same as naming none.
pub proof fn law_current_clone_by_name(clones: Entries<CloneView>, cwd: Seq<char>)
    requires
        unique(clones),
        clone_around(clones, cwd) is Some,
    ensures
        target_clone(clones, Some(clones[clone_around(clones, cwd)->0].0), cwd) == target_clone(
            clones,
            None,
            cwd,
        ),
{
    lemma_first_where(clones, |e: (Seq<char>, CloneView)| within(cwd, e.1.path));
    lemma_place_unique(clones, clone_around(clones, cwd)->0);
}

/// When a pool is found without being asked for: if and only if the current directory
/// lies in the directory of a pool that is set up or in a clone of one. The directory of
/// a pool goes before clones.
pub proof fn law_detected_pool(
    config: ConfigView,
    state: Entries<Entries<CloneView>>,
    cwd: Seq<char>,
)
    ensures
        ({
            let in_dir = |name: Seq<char>|
                holds(config.pools, name) && within(cwd, join(config.root, name));
            let in_clone = |p: int, c: int|
                0 <= p < state.len() && holds(config.pools, state[p].0) && 0 <= c
                    < state[p].1.len() && within(cwd, state[p].1[c].1.path);
            match resolved(config, state, None, cwd) {
                Ok(name) => {
                    ||| in_dir(name)
                    ||| (forall|other: Seq<char>| !#[trigger] in_dir(other)) && exists|
                        p: int,
                        c: int,
                    | #[trigger]
                        in_clone(p, c) && state[p].0 == name
                },
                Err(e) => {
                    &&& e == ResolveError::Undetected
                    &&& forall|other: Seq<char>| !#[trigger] in_dir(other)
                    &&& forall|p: int, c: int| !#[trigger] in_clone(p, c)
                },
            }
        }),
{
    let in_dir = |name: Seq<char>|
        holds(config.pools, name) && within(cwd, join(config.root, name));
    let in_clone = |p: int, c: int|
        0 <= p < state.len() && holds(config.pools, state[p].0) && 0 <= c < state[p].1.len()
            && within(cwd, state[p].1[c].1.path);
    let by_dir = |e: (Seq<char>, crate::model::PoolConfigView)| within(cwd, pool_place(config, e.0));
    let by_clone = |e: (Seq<char>, Entries<CloneView>)|
        holds(config.pools, e.0) && clone_around(e.1, cwd) is Some;
    lemma_first_where(config.pools, by_dir);
    lemma_first_where(state, by_clone);
    match pool_by_dir(config, cwd) {
        Some(i) => {
            assert(holds(config.pools, config.pools[i].0));
            assert(in_dir(config.pools[i].0));
        },
        None => {
            assert forall|other: Seq<char>| !#[trigger] in_dir(other) by {
                if in_dir(other) {
                    let k = choose|k: int|
                        0 <= k < config.pools.len() && #[trigger] config.pools[k].0 == other;
                    assert(by_dir(config.pools[k]));
                }
            }
            match pool_by_clone(config, state, cwd) {
                Some(p) => {
                    let here = |e: (Seq<char>, CloneView)| within(cwd, e.1.path);
                    lemma_first_where(state[p].1, here);
                    let c = clone_around(state[p].1, cwd)->0;
                    assert(in_clone(p, c));
                },
                None => {
                    assert forall|p: int, c: int| !#[trigger] in_clone(p, c) by {
                        if in_clone(p, c) {
                            let here = |e: (Seq<char>, CloneView)| within(cwd, e.1.path);
                            lemma_first_where(state[p].1, here);
                            assert(here(state[p].1[c]));
                            assert(by_clone(state[p]));
                        }
                    }
                },
            }
        },
    }
}

/// A pool that is asked for is found if and only if it is set up.
pub proof fn law_asked_pool(
    config: ConfigView,
    state: Entries<Entries<CloneView>>,
    name: Seq<char>,
    cwd: Seq<char>,
)
    ensures
        resolved(config, state, Some(name), cwd) == if holds(config.pools, name) {
            Ok::<Seq<char>, ResolveError>(name)
        } else {
            Err::<Seq<char>, ResolveError>(ResolveError::UnknownPool)
        },
{
}

/// Which clone a command is about: the one of the name that was asked for, wherever the
/// command is run; else the first that the current directory lies in.
pub proof fn law_target_clone(
    clones: Entries<CloneView>,
    name: Seq<char>,
    cwd: Seq<char>,
    k: int,
)
    ensures
        match target_clone(clones, Some(name), cwd) {
            Ok(i) => {
                &&& 0 <= i < clones.len() && clones[i].0 == name
                &&& 0 <= k < i ==> clones[k].0 != name
            },
            Err(e) => {
                &&& e == CloneError::NotFound
                &&& 0 <= k < clones.len() ==> clones[k].0 != name
            },
        },
        match target_clone(clones, None, cwd) {
            Ok(i) => {
                &&& 0 <= i < clones.len() && within(cwd, clones[i].1.path)
                &&& 0 <= k < i ==> !within(cwd, clones[k].1.path)
            },
            Err(e) => {
                &&& e == CloneError::NotInClone
                &&& 0 <= k < clones.len() ==> !within(cwd, clones[k].1.path)
            },
        },
{
    lemma_place(clones, name);
    let here = |e: (Seq<char>, CloneView)| within(cwd, e.1.path);
    lemma_first_where(clones, here);
    if 0 <= k < clones.len() {
        if clones[k].0 == name {
            assert(holds(clones, name));
        }
        if within(cwd, clones[k].1.path) {
            assert(here(clones[k]));
        }
    }
}

/// What the user is told where no pool or no clone is found names what was asked for,
/// what there is, and where the command was run.
pub proof fn law_not_found_words(config: ConfigView, asked: Seq<char>, cwd: Seq<char>)
    ensures
        ResolveError::UnknownPool.text(config, asked, cwd) == "Pool '"@ + asked
            + "' not found. Available pools: "@ + joined(
            Seq::new(config.pools.len(), |i: int| config.pools[i].0),
            ", "@,
        ),
        ResolveError::Undetected.text(config, asked, cwd)
            == "Could not detect pool from current directory.\nUse -p <pool> to specify a pool, or cd to a pool directory.\nCurrent dir: "@
            + cwd,
        CloneError::NotFound.text(asked) == "Clone '"@ + asked + "' not found"@,
{
    assert(names(config.pools) =~= Seq::new(config.pools.len(), |i: int| config.pools[i].0));
}

} // verus!
