//! Refreshing what is remembered of the remote repositories.

use vstd::prelude::*;

use crate::git::{collect_remote_branches, remote_branches};
use crate::model::{BranchCache, BranchList, CloneView, Config, ConfigView, State};
use crate::search::{first_where, lemma_is_first, lemma_no_first};
use crate::table::{holds, law_put, lookup, put, unique, Entries};
use crate::text::{decimal, decimal_of, opt_str, texts};

verus! {

/// The clone of a pool that is asked for the branches: the first that could be
/// fetched.
pub open spec fn first_fetched(fetched: Seq<bool>) -> Option<int> {
    first_where(fetched, |ok: bool| ok)
}

/// The clone of a pool that is asked for the branches.
pub fn branch_clone(fetched: &Vec<bool>) -> (r: Option<usize>)
    ensures
        r matches Some(i) ==> i < fetched@.len() && first_fetched(fetched@) == Some(i as int),
        r is None ==> first_fetched(fetched@) is None,
{
    let ghost p = |ok: bool| ok;
    for i in 0..fetched.len()
        invariant
            p == (|ok: bool| ok),
            forall|j: int| 0 <= j < i ==> !p(#[trigger] fetched@[j]),
    {
        if fetched[i] {
            proof {
                lemma_is_first(fetched@, p, i as int);
            }
            return Some(i);
        }
    }
    proof {
        lemma_no_first(fetched@, p);
    }
    None
}

/// What came of refreshing a pool: which clones could be fetched, and what the
/// clone that was asked for the branches printed, if it could be asked.
pub struct PoolSync {
    pub fetched: Vec<bool>,
    pub output: Option<String>,
}

/// What is remembered once the first `n` pools were refreshed. A pool that is set
/// up, and has a clone that was fetched and told its branches, is remembered with
/// them; every other keeps what was remembered.
pub open spec fn refreshed(
    config: ConfigView,
    state: Entries<Entries<CloneView>>,
    results: Seq<PoolSync>,
    cache: Entries<Seq<Seq<char>>>,
    n: int,
) -> Entries<Seq<Seq<char>>>
    decreases n,
{
    if n <= 0 {
        cache
    } else {
        let rest = refreshed(config, state, results, cache, n - 1);
        let pool = state[n - 1].0;
        if holds(config.pools, pool) && first_fetched(results[n - 1].fetched@) is Some {
            match results[n - 1].output {
                Some(output) => put(rest, pool, remote_branches(output@)),
                None => rest,
            }
        } else {
            rest
        }
    }
}

/// Every clone of every pool that is set up was tried.
pub open spec fn sync_known(
    config: ConfigView,
    state: Entries<Entries<CloneView>>,
    results: Seq<PoolSync>,
) -> bool {
    &&& results.len() == state.len()
    &&& forall|p: int|
        0 <= p < state.len() && holds(config.pools, #[trigger] state[p].0)
            ==> results[p].fetched@.len() == state[p].1.len()
}

/// Every clone of every pool that is set up could be fetched.
pub open spec fn all_fetched(
    config: ConfigView,
    state: Entries<Entries<CloneView>>,
    results: Seq<PoolSync>,
) -> bool {
    forall|p: int, c: int|
        #![trigger results[p].fetched@[c]]
        0 <= p < state.len() && holds(config.pools, state[p].0) && 0 <= c < state[p].1.len()
            ==> results[p].fetched@[c]
}

fn any_failed(fetched: &Vec<bool>) -> (r: bool)
    ensures
        r == exists|c: int| 0 <= c < fetched@.len() && !#[trigger] fetched@[c],
{
    for c in 0..fetched.len()
        invariant
            forall|k: int| 0 <= k < c ==> #[trigger] fetched@[k],
    {
        if !fetched[c] {
            assert(!fetched@[c as int]);
            return true;
        }
    }
    false
}

/// Remembers the branches of every pool that was refreshed, and says whether every
/// clone could be fetched.
pub fn sync(
    config: &Config,
    state: &State,
    results: &Vec<PoolSync>,
    cache: &mut BranchCache,
) -> (r: bool)
    requires
        sync_known(config@, state@, results@),
    ensures
        r == all_fetched(config@, state@, results@),
        final(cache)@ == refreshed(
            config@,
            state@,
            results@,
            old(cache)@,
            state@.len() as int,
        ),
{
    let ghost was = cache@;
    let mut ok = true;
    let n = state.pools.len();
    for p in 0..n
        invariant
            n == state@.len(),
            sync_known(config@, state@, results@),
            cache@ == refreshed(config@, state@, results@, was, p as int),
            ok == forall|q: int, c: int|
                #![trigger results@[q].fetched@[c]]
                0 <= q < p && holds(config@.pools, state@[q].0) && 0 <= c < state@[q].1.len()
                    ==> results@[q].fetched@[c],
    {
        let ghost ok_before = ok;
        let name = state.pools.name(p).as_str();
        let known = config.pools.contains(name);
        if known {
            let failed = any_failed(&results[p].fetched);
            if failed {
                ok = false;
                proof {
                    let c = choose|c: int|
                        0 <= c < results@[p as int].fetched@.len()
                            && !#[trigger] results@[p as int].fetched@[c];
                    assert(!results@[p as int].fetched@[c]);
                }
            }
            if branch_clone(&results[p].fetched).is_some() {
                if let Some(output) = &results[p].output {
                    let branches = collect_remote_branches(output.as_str());
                    cache.pools.insert(name.to_owned(), BranchList { branches });
                }
            }
        }
        proof {
            if !ok_before {
                let (q, c) = choose|q: int, c: int|
                    #![trigger results@[q].fetched@[c]]
                    0 <= q < p && holds(config@.pools, state@[q].0) && 0 <= c < state@[q].1.len()
                        && !results@[q].fetched@[c];
                assert(!results@[q].fetched@[c]);
            }
        }
    }
    ok
}

/// What the user is told where some clone could not be fetched.
pub fn sync_failure() -> (r: &'static str)
    ensures
        r@ == "Some fetches failed (see errors above)"@,
{
    "Some fetches failed (see errors above)"
}

/// What the user is told of a clone once it was tried: that it was fetched, or why it
/// was not.
pub open spec fn fetch_text(error: Option<Seq<char>>) -> Seq<char> {
    match error {
        None => "ok"@,
        Some(e) => "error: "@ + e,
    }
}

/// What the user is told of a clone once it was tried.
pub fn fetch_message(error: Option<&str>) -> (r: String)
    ensures
        r@ == fetch_text(opt_str(error)),
{
    match error {
        None => "ok".to_owned(),
        Some(e) => {
            let mut r = "error: ".to_owned();
            r.append(e);
            r
        },
    }
}

/// What the user is told of branches that are remembered.
pub fn cached_message(pool: &str, output: &str) -> (r: String)
    ensures
        r@ == "  Cached "@ + decimal_of(remote_branches(output@).len()) + " branches for "@ + pool@,
{
    let branches = collect_remote_branches(output);
    assert(texts(branches@).len() == branches@.len());
    let mut r = "  Cached ".to_owned();
    r.append(decimal(branches.len() as u128).as_str());
    r.append(" branches for ");
    r.append(pool);
    r
}

/// After a refresh, a pool that is set up and told its branches is remembered with
/// exactly those; every other pool is remembered as before.
pub proof fn law_refreshed(
    config: ConfigView,
    state: Entries<Entries<CloneView>>,
    results: Seq<PoolSync>,
    cache: Entries<Seq<Seq<char>>>,
    n: int,
    p: int,
    other: Seq<char>,
)
    requires
        unique(state),
        results.len() == state.len(),
        0 <= p < n <= state.len(),
    ensures
        ({
            let after = refreshed(config, state, results, cache, n);
            let pool = state[p].0;
            let told = holds(config.pools, pool) && first_fetched(results[p].fetched@) is Some
                && results[p].output is Some;
            &&& told ==> lookup(after, pool) == Some(remote_branches(results[p].output->0@))
            &&& !told ==> lookup(after, pool) == lookup(cache, pool)
            &&& !holds(state, other) ==> lookup(after, other) == lookup(cache, other)
            &&& unique(cache) ==> unique(after)
        }),
{
    lemma_refreshed(config, state, results, cache, n, state[p].0, p);
    if !holds(state, other) {
        lemma_refreshed(config, state, results, cache, n, other, state.len() as int);
    }
}

/// `p` is the pool of this name, or not among the first `n`.
proof fn lemma_refreshed(
    config: ConfigView,
    state: Entries<Entries<CloneView>>,
    results: Seq<PoolSync>,
    cache: Entries<Seq<Seq<char>>>,
    n: int,
    name: Seq<char>,
    p: int,
)
    requires
        unique(state),
        0 <= n <= state.len(),
        0 <= p,
        p < state.len() ==> state[p].0 == name,
        p >= state.len() ==> !holds(state, name),
    ensures
        ({
            let after = refreshed(config, state, results, cache, n);
            let told = p < n && holds(config.pools, name) && first_fetched(results[p].fetched@)
                is Some && results[p].output is Some;
            &&& lookup(after, name) == if told {
                Some(remote_branches(results[p].output->0@))
            } else {
                lookup(cache, name)
            }
            &&& unique(cache) ==> unique(after)
        }),
    decreases n,
{
    if n > 0 {
        lemma_refreshed(config, state, results, cache, n - 1, name, p);
        let rest = refreshed(config, state, results, cache, n - 1);
        let pool = state[n - 1].0;
        if pool == name {
            assert(p == n - 1) by {
                if p < state.len() {
                    assert(state[p].0 == state[n - 1].0);
                } else {
                    assert(holds(state, name));
                }
            }
        }
        match results[n - 1].output {
            Some(output) => {
                law_put(rest, pool, remote_branches(output@), name);
            },
            None => {},
        }
    }
}

/// The clone that is asked for the branches was fetched, and none before it was; there
/// is one if any clone was fetched.
pub proof fn law_asked_clone(fetched: Seq<bool>, k: int)
    requires
        0 <= k < fetched.len(),
    ensures
        fetched[k] ==> first_fetched(fetched) is Some,
        first_fetched(fetched) matches Some(i) ==> {
            &&& 0 <= i < fetched.len()
            &&& fetched[i]
            &&& k < i ==> !fetched[k]
        },
{
    crate::search::lemma_first_where(fetched, |ok: bool| ok);
}

/// What is remembered of a pool after a refresh. If it is set up, some clone of it was
/// fetched and its branches were told, these are remembered; else what was. The clones
/// that could not be fetched make no difference.
pub proof fn law_remembered_branches(
    config: ConfigView,
    state: Entries<Entries<CloneView>>,
    results: Seq<PoolSync>,
    cache: Entries<Seq<Seq<char>>>,
    p: int,
    c: int,
)
    requires
        unique(state),
        results.len() == state.len(),
        0 <= p < state.len(),
    ensures
        ({
            let after = lookup(
                refreshed(config, state, results, cache, state.len() as int),
                state[p].0,
            );
            let before = lookup(cache, state[p].0);
            let fetched = results[p].fetched@;
            &&& holds(config.pools, state[p].0) && 0 <= c < fetched.len() && fetched[c] ==> (
            results[p].output matches Some(output) ==> after == Some(remote_branches(output@)))
            &&& results[p].output is None ==> after == before
            &&& !holds(config.pools, state[p].0) ==> after == before
            &&& (forall|k: int| 0 <= k < fetched.len() ==> !#[trigger] fetched[k]) ==> after
                == before
        }),
{
    law_refreshed(config, state, results, cache, state.len() as int, p, state[p].0);
    let fetched = results[p].fetched@;
    if 0 <= c < fetched.len() {
        law_asked_clone(fetched, c);
    }
    crate::search::lemma_first_where(fetched, |ok: bool| ok);
}

/// A refresh succeeds if and only if no clone of a pool that is set up failed.
pub proof fn law_refresh_succeeds(
    config: ConfigView,
    state: Entries<Entries<CloneView>>,
    results: Seq<PoolSync>,
    p: int,
    c: int,
)
    ensures
        0 <= p < state.len() && holds(config.pools, state[p].0) && 0 <= c < state[p].1.len()
            && !results[p].fetched@[c] ==> !all_fetched(config, state, results),
        (forall|q: int, k: int|
            0 <= q < state.len() && 0 <= k < state[q].1.len() && holds(
                config.pools,
                state[q].0,
            ) ==> #[trigger] results[q].fetched@[k]) ==> all_fetched(config, state, results),
{
}

/// What the user is told of a clone that was tried.
pub proof fn law_fetch_words(error: Seq<char>)
    ensures
        fetch_text(None) == "ok"@,
        fetch_text(Some(error)) == "error: "@ + error,
{
}

} // verus!
