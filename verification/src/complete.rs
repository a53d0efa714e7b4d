//! What the shell may complete a word with.

use vstd::prelude::*;

use crate::model::{BranchCache, CloneView, Config, ConfigView, State};
use crate::resolve::{resolve_pool, resolved};
use crate::table::{holds, lemma_place, lookup, names, Entries};
use crate::text::{lines, lines_of, opt_str, same_text, texts};
use crate::model::clones_of;

verus! {

/// What is to be completed.
#[derive(Clone, Copy, Debug, PartialEq, Eq, Structural)]
pub enum CompletionKind {
    Pools,
    Clones,
    Branches,
    /// Nothing that is known.
    Other,
}

/// What a word asks to have completed.
pub open spec fn kind_of(word: Seq<char>) -> CompletionKind {
    if word == "pools"@ {
        CompletionKind::Pools
    } else if word == "clones"@ {
        CompletionKind::Clones
    } else if word == "branches"@ {
        CompletionKind::Branches
    } else {
        CompletionKind::Other
    }
}

/// What a word asks to have completed.
pub fn completion_kind(word: &str) -> (r: CompletionKind)
    ensures
        r == kind_of(word@),
{
    if same_text(word, "pools") {
        CompletionKind::Pools
    } else if same_text(word, "clones") {
        CompletionKind::Clones
    } else if same_text(word, "branches") {
        CompletionKind::Branches
    } else {
        CompletionKind::Other
    }
}

/// The pools that are set up.
pub fn complete_pools(config: &Config) -> (r: Vec<String>)
    ensures
        texts(r@) == names(config@.pools),
{
    config.pools.all_names()
}

/// The clones of the first `n` pools, or of them only of the one that was asked
/// for.
pub open spec fn clone_names(
    config: ConfigView,
    state: Entries<Entries<CloneView>>,
    only: Option<Seq<char>>,
    n: int,
) -> Seq<Seq<char>>
    decreases n,
{
    if n <= 0 {
        Seq::empty()
    } else {
        let rest = clone_names(config, state, only, n - 1);
        let pool = config.pools[n - 1].0;
        match lookup(state, pool) {
            Some(clones) => if only is None || only == Some(pool) {
                rest + names(clones)
            } else {
                rest
            },
            None => rest,
        }
    }
}

/// The clones of all pools that are set up, or of the one that was asked for.
pub fn complete_clones(config: &Config, state: &State, only: Option<&str>) -> (r: Vec<String>)
    ensures
        texts(r@) == clone_names(config@, state@, opt_str(only), config@.pools.len() as int),
{
    let mut r: Vec<String> = Vec::new();
    assert(texts(r@) =~= Seq::empty());
    let n = config.pools.len();
    for i in 0..n
        invariant
            n == config@.pools.len(),
            texts(r@) == clone_names(config@, state@, opt_str(only), i as int),
    {
        let pool = config.pools.name(i).as_str();
        let wanted = match only {
            Some(one) => same_text(one, pool),
            None => true,
        };
        if let Some(ps) = state.pools.get(pool) {
            if wanted {
                let ghost before = r@;
                let mut some = ps.clones.all_names();
                let ghost added = some@;
                r.append(&mut some);
                assert(texts(r@) =~= texts(before) + texts(added));
            }
        }
    }
    r
}

/// All branches that are remembered for the first `n` pools.
pub open spec fn all_branches(cache: Entries<Seq<Seq<char>>>, n: int) -> Seq<Seq<char>>
    decreases n,
{
    if n <= 0 {
        Seq::empty()
    } else {
        all_branches(cache, n - 1) + cache[n - 1].1
    }
}

/// Where the branches to complete with come from.
pub enum BranchSource {
    /// These are remembered.
    Known(Vec<String>),
    /// The clone at this path is to be asked for its branches.
    Ask(String),
    /// There are none.
    Nowhere,
}

/// The pool whose branches are wanted: the one that was asked for, set up or not,
/// else the one that the current directory belongs to, if any.
pub open spec fn branch_pool(
    config: ConfigView,
    state: Entries<Entries<CloneView>>,
    asked: Option<Seq<char>>,
    cwd: Seq<char>,
) -> Option<Seq<char>> {
    match asked {
        Some(p) => Some(p),
        None => match resolved(config, state, None, cwd) {
            Ok(p) => Some(p),
            Err(_) => None,
        },
    }
}

/// The branches of the pool are taken from memory, else from its first clone;
/// without a pool they are all that are remembered.
pub open spec fn source_fits(
    state: Entries<Entries<CloneView>>,
    cache: Entries<Seq<Seq<char>>>,
    pool: Option<Seq<char>>,
    source: BranchSource,
) -> bool {
    match pool {
        Some(p) => match lookup(cache, p) {
            Some(branches) => source matches BranchSource::Known(b) && texts(b@) == branches,
            None => match lookup(state, p) {
                Some(clones) => if clones.len() > 0 {
                    source matches BranchSource::Ask(path) && path@ == clones[0].1.path
                } else {
                    source is Nowhere
                },
                None => source is Nowhere,
            },
        },
        None => source matches BranchSource::Known(b) && texts(b@) == all_branches(
            cache,
            cache.len() as int,
        ),
    }
}

/// Where the branches to complete with come from.
pub fn complete_branches(
    config: &Config,
    state: &State,
    cache: &BranchCache,
    asked: Option<&str>,
    cwd: &str,
) -> (r: BranchSource)
    ensures
        source_fits(state@, cache@, branch_pool(config@, state@, opt_str(asked), cwd@), r),
        asked matches Some(p) ==> match lookup(cache@, p@) {
            Some(branches) => r matches BranchSource::Known(b) && texts(b@) == branches,
            None => if clones_of(state@, p@).len() > 0 {
                r matches BranchSource::Ask(path) && path@ == clones_of(state@, p@)[0].1.path
            } else {
                r is Nowhere
            },
        },
{
    let pool = match asked {
        Some(p) => Some(p.to_owned()),
        None => match resolve_pool(config, state, None, cwd) {
            Ok(p) => Some(p),
            Err(_) => None,
        },
    };
    match pool {
        Some(p) => {
            if let Some(list) = cache.pools.get(p.as_str()) {
                return BranchSource::Known(crate::text::copy_texts(&list.branches));
            }
            if let Some(ps) = state.pools.get(p.as_str()) {
                if !ps.clones.is_empty() {
                    return BranchSource::Ask(ps.clones.value(0).path.clone());
                }
            }
            BranchSource::Nowhere
        },
        None => {
            let mut r: Vec<String> = Vec::new();
            assert(texts(r@) =~= Seq::empty());
            let n = cache.pools.len();
            for i in 0..n
                invariant
                    n == cache@.len(),
                    texts(r@) == all_branches(cache@, i as int),
            {
                let ghost before = r@;
                let mut some = crate::text::copy_texts(&cache.pools.value(i).branches);
                let ghost added = some@;
                r.append(&mut some);
                assert(texts(r@) =~= texts(before) + texts(added));
            }
            BranchSource::Known(r)
        },
    }
}

/// The branches that a clone named when it was asked for them, one on each line;
/// none where it could not be asked.
pub fn branches_named(output: Option<&str>) -> (r: Vec<String>)
    ensures
        texts(r@) == match output {
            Some(o) => lines_of(o@),
            None => Seq::<Seq<char>>::empty(),
        },
{
    match output {
        Some(o) => lines(o),
        None => {
            let r: Vec<String> = Vec::new();
            assert(texts(r@) =~= Seq::<Seq<char>>::empty());
            r
        },
    }
}

/// The clones that are offered are exactly those of the pools that are set up, or
/// of the one that was asked for.
pub proof fn law_offered_clones(
    config: ConfigView,
    state: Entries<Entries<CloneView>>,
    only: Option<Seq<char>>,
    n: int,
    name: Seq<char>,
)
    requires
        0 <= n <= config.pools.len(),
    ensures
        clone_names(config, state, only, n).contains(name) == exists|i: int|
            0 <= i < n && (only is None || only == Some((#[trigger] config.pools[i]).0)) && holds(
                state,
                config.pools[i].0,
            ) && holds(lookup(state, config.pools[i].0)->0, name),
    decreases n,
{
    broadcast use vstd::seq_lib::group_seq_properties;

    if n > 0 {
        law_offered_clones(config, state, only, n - 1, name);
        let pool = config.pools[n - 1].0;
        lemma_place(state, pool);
        match lookup(state, pool) {
            Some(clones) => {
                assert(names(clones).contains(name) == holds(clones, name)) by {
                    if names(clones).contains(name) {
                        let k = choose|k: int| 0 <= k < names(clones).len() && names(clones)[k]
                            == name;
                        assert(clones[k].0 == name);
                    }
                    if holds(clones, name) {
                        let k = choose|k: int| 0 <= k < clones.len() && #[trigger] clones[k].0
                            == name;
                        assert(names(clones)[k] == name);
                    }
                }
            },
            None => {},
        }
    }
}

/// The branches of a pool that is asked for by name are those that are remembered for
/// it, wherever the command is run and whatever pools are set up; where none are, they
/// are asked of its first clone, if it has one.
pub proof fn law_branches_of_asked_pool(
    config: ConfigView,
    state: Entries<Entries<CloneView>>,
    cache: Entries<Seq<Seq<char>>>,
    pool: Seq<char>,
    cwd: Seq<char>,
    source: BranchSource,
)
    requires
        source_fits(state, cache, branch_pool(config, state, Some(pool), cwd), source),
    ensures
        lookup(cache, pool) matches Some(branches) ==> (source matches BranchSource::Known(b)
            && texts(b@) == branches),
        lookup(cache, pool) is None && clones_of(state, pool).len() > 0 ==> (
        source matches BranchSource::Ask(path) && path@ == clones_of(state, pool)[0].1.path),
        lookup(cache, pool) is None && clones_of(state, pool).len() == 0 ==> source is Nowhere,
{
}

/// Asking for the pool that the current directory belongs to is the same as asking for
/// none.
pub proof fn law_branches_of_current_pool(
    config: ConfigView,
    state: Entries<Entries<CloneView>>,
    cache: Entries<Seq<Seq<char>>>,
    cwd: Seq<char>,
    other_cwd: Seq<char>,
    source: BranchSource,
)
    requires
        resolved(config, state, None, cwd) is Ok,
    ensures
        source_fits(state, cache, branch_pool(config, state, None, cwd), source) <==> source_fits(
            state,
            cache,
            branch_pool(config, state, Some(resolved(config, state, None, cwd)->Ok_0), other_cwd),
            source,
        ),
{
}

/// Where no pool is asked for and the current directory belongs to none, every branch
/// that is remembered for any pool is offered, and nothing else.
pub proof fn law_branches_of_no_pool(
    config: ConfigView,
    state: Entries<Entries<CloneView>>,
    cache: Entries<Seq<Seq<char>>>,
    cwd: Seq<char>,
    source: BranchSource,
    branch: Seq<char>,
)
    requires
        resolved(config, state, None, cwd) is Err,
        source_fits(state, cache, branch_pool(config, state, None, cwd), source),
    ensures
        source is Known,
        texts(source->Known_0@).contains(branch) <==> exists|i: int|
            0 <= i < cache.len() && (#[trigger] cache[i]).1.contains(branch),
{
    lemma_all_branches(cache, cache.len() as int, branch);
}

proof fn lemma_all_branches(cache: Entries<Seq<Seq<char>>>, n: int, branch: Seq<char>)
    requires
        0 <= n <= cache.len(),
    ensures
        all_branches(cache, n).contains(branch) <==> exists|i: int|
            0 <= i < n && (#[trigger] cache[i]).1.contains(branch),
    decreases n,
{
    broadcast use vstd::seq_lib::group_seq_properties;

    if n > 0 {
        lemma_all_branches(cache, n - 1, branch);
        if cache[n - 1].1.contains(branch) {
            assert(all_branches(cache, n).contains(branch));
        }
    }
}

/// The branches of all pools come pool by pool.
pub proof fn law_all_branches_in_turn(cache: Entries<Seq<Seq<char>>>, n: int)
    requires
        0 <= n < cache.len(),
    ensures
        all_branches(cache, 0) == Seq::<Seq<char>>::empty(),
        all_branches(cache, n + 1) == all_branches(cache, n) + cache[n].1,
{
}

/// The clones that are offered for one pool that is set up are all its clones, as they
/// are listed; and those of all pools come pool by pool.
pub proof fn law_clones_in_turn(
    config: ConfigView,
    state: Entries<Entries<CloneView>>,
    only: Option<Seq<char>>,
    n: int,
)
    requires
        0 <= n < config.pools.len(),
    ensures
        ({
            let pool = config.pools[n].0;
            let before = clone_names(config, state, only, n);
            let after = clone_names(config, state, only, n + 1);
            &&& clone_names(config, state, only, 0) == Seq::<Seq<char>>::empty()
            &&& only is Some && only->0 != pool ==> after == before
            &&& only is None || only->0 == pool ==> after == before + Seq::new(
                clones_of(state, pool).len(),
                |k: int| clones_of(state, pool)[k].0,
            )
        }),
{
    let pool = config.pools[n].0;
    let before = clone_names(config, state, only, n);
    let added = Seq::new(clones_of(state, pool).len(), |k: int| clones_of(state, pool)[k].0);
    match lookup(state, pool) {
        Some(clones) => {
            assert(names(clones) =~= added);
        },
        None => {
            assert(before + added =~= before);
        },
    }
}

/// Each word asks for one thing, and no other word asks for it.
pub proof fn law_completion_words(word: Seq<char>)
    ensures
        kind_of(word) == CompletionKind::Pools <==> word == "pools"@,
        kind_of(word) == CompletionKind::Clones <==> word == "clones"@,
        kind_of(word) == CompletionKind::Branches <==> word == "branches"@,
{
    reveal_strlit("pools");
    reveal_strlit("clones");
    reveal_strlit("branches");
    assert("pools"@[0] == 'p' && "clones"@[0] == 'c' && "branches"@[0] == 'b');
}

} // verus!
