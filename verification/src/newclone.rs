//! Adding a clone to a pool.

use vstd::prelude::*;

use crate::clones::{clone_path, CdError};
use crate::git::{clone_args, clone_words, failure_text, run_git, submodule_args, submodule_words};
use crate::model::{
    clones_of, enter_pool, law_put_clones, lemma_clones_unique, pool_dir, pool_place, state_ok,
    CloneState, CloneView, Config, ConfigView, PoolState, State, Timestamp,
};
use crate::names::{forbidden, name_fault, reported, valid_name, NameFault};
use crate::path::{join, join_path};
use crate::table::{holds, law_put, lemma_place, lookup, names, put, unique, Entries};
use crate::text::{decimal, decimal_of, law_decimal_injective, texts};

verus! {

/// The name of a pool's clone with a number.
pub open spec fn numbered(pool: Seq<char>, i: nat) -> Seq<char> {
    pool + "-"@ + decimal_of(i)
}

/// The number of the next clone of a pool that is given no name: the first beyond
/// how many clones there are whose name is not taken.
pub open spec fn next_number(clones: Entries<CloneView>, pool: Seq<char>, i: nat) -> bool {
    &&& i > clones.len()
    &&& !holds(clones, numbered(pool, i))
    &&& forall|j: nat| clones.len() < j < i ==> holds(clones, #[trigger] numbered(pool, j))
}

/// There is only one next number.
pub proof fn law_one_next_number(clones: Entries<CloneView>, pool: Seq<char>, a: nat, b: nat)
    requires
        next_number(clones, pool, a),
        next_number(clones, pool, b),
    ensures
        a == b,
{
    if a < b {
        assert(holds(clones, numbered(pool, a)));
    }
    if b < a {
        assert(holds(clones, numbered(pool, b)));
    }
}

proof fn lemma_numbered_injective(pool: Seq<char>, a: nat, b: nat)
    requires
        numbered(pool, a) == numbered(pool, b),
    ensures
        a == b,
{
    let start = (pool + "-"@).len() as int;
    assert(numbered(pool, a).skip(start) =~= decimal_of(a));
    assert(numbered(pool, b).skip(start) =~= decimal_of(b));
    law_decimal_injective(a, b);
}

/// As many numbers can be taken as there are clones.
proof fn lemma_numbers_taken(clones: Entries<CloneView>, pool: Seq<char>, from: nat, to: nat)
    requires
        from <= to,
        forall|j: nat| from <= j < to ==> holds(clones, #[trigger] numbered(pool, j)),
    ensures
        to - from <= clones.len(),
{
    let wanted = Seq::new((to - from) as nat, |k: int| numbered(pool, (from + k) as nat));
    assert(wanted.no_duplicates()) by {
        assert forall|a: int, b: int|
            0 <= a < wanted.len() && 0 <= b < wanted.len() && a != b implies wanted[a]
            != wanted[b] by {
            if wanted[a] == wanted[b] {
                lemma_numbered_injective(pool, (from + a) as nat, (from + b) as nat);
            }
        }
    }
    let given = names(clones);
    assert(wanted.to_set().subset_of(given.to_set())) by {
        assert forall|n: Seq<char>| wanted.to_set().contains(n) implies given.to_set().contains(
            n,
        ) by {
            let k = choose|k: int| 0 <= k < wanted.len() && wanted[k] == n;
            assert(holds(clones, numbered(pool, (from + k) as nat)));
            let i = choose|i: int| 0 <= i < clones.len() && #[trigger] clones[i].0 == n;
            assert(given[i] == n);
        }
    }
    wanted.unique_seq_to_set();
    given.lemma_cardinality_of_set();
    vstd::set_lib::lemma_len_subset(wanted.to_set(), given.to_set());
}

/// The name of the next clone of a pool that is given no name.
pub fn auto_name(pool: &PoolState, pool_name: &str) -> (r: String)
    ensures
        exists|i: nat| #[trigger]
            next_number(pool@, pool_name@, i) && r@ == numbered(pool_name@, i),
{
    let n = pool.clones.len() as u128;
    let mut i: u128 = n + 1;
    loop
        invariant
            n == pool@.len(),
            n < i <= 2 * n + 1,
            n <= usize::MAX,
            forall|j: nat| n < j < i ==> holds(pool@, #[trigger] numbered(pool_name@, j)),
        decreases 2 * n + 1 - i,
    {
        let mut candidate = pool_name.to_owned();
        candidate.append("-");
        candidate.append(decimal(i).as_str());
        if !pool.clones.contains(candidate.as_str()) {
            assert(next_number(pool@, pool_name@, i as nat));
            return candidate;
        }
        proof {
            assert(candidate@ == numbered(pool_name@, i as nat));
            lemma_numbers_taken(pool@, pool_name@, (n + 1) as nat, (i + 1) as nat);
        }
        i = i + 1;
    }
}

/// Why no clone is added.
#[derive(Clone, Copy, Debug, PartialEq, Eq, Structural)]
pub enum NewError {
    /// The clone cannot bear its name.
    BadName(NameFault),
    /// The pool has a clone of this name.
    AlreadyExists,
}

impl NewError {
    /// What the user is told.
    pub open spec fn text(self, name: Seq<char>) -> Seq<char> {
        match self {
            NewError::BadName(fault) => fault.text(name, "Clone"@),
            NewError::AlreadyExists => "Clone '"@ + name + "' already exists"@,
        }
    }

    /// What the user is told.
    pub fn message(&self, name: &str) -> (r: String)
        ensures
            r@ == self.text(name@),
    {
        match self {
            NewError::BadName(fault) => fault.message(name, "Clone"),
            NewError::AlreadyExists => {
                let mut r = "Clone '".to_owned();
                r.append(name);
                r.append("' already exists");
                r
            },
        }
    }
}

/// How a clone is added.
pub struct ClonePlan {
    /// What it is called.
    pub name: String,
    /// Where it will be.
    pub path: String,
    /// The clone whose objects are shared, if there is one.
    pub reference: Option<String>,
    /// What `git` is asked to do.
    pub args: Vec<String>,
}

/// The clone whose objects a new clone shares: the first of the pool.
pub open spec fn reference_of(clones: Entries<CloneView>) -> Option<Seq<char>> {
    if clones.len() > 0 {
        Some(clones[0].1.path)
    } else {
        None
    }
}

/// The plan puts the clone below the pool's directory and has it cloned from the
/// pool's repository.
pub open spec fn plan_fits(
    plan: ClonePlan,
    config: ConfigView,
    clones: Entries<CloneView>,
    pool: Seq<char>,
) -> bool {
    let reference = reference_of(clones);
    &&& plan.path@ == join(pool_place(config, pool), plan.name@)
    &&& crate::text::opt_text(plan.reference) == reference
    &&& texts(plan.args@) == clone_words(
        reference,
        lookup(config.pools, pool)->0.repo_url,
        plan.path@,
    )
}

/// Plans a new clone of a pool that is set up, under a given name or under the next
/// one that is free.
pub fn plan_clone(config: &Config, state: &State, pool: &str, name: Option<&str>) -> (r: Result<
    ClonePlan,
    NewError,
>)
    requires
        holds(config@.pools, pool@),
    ensures
        r matches Ok(plan) ==> plan_fits(plan, config@, clones_of(state@, pool@), pool@),
        name matches Some(n) ==> {
            &&& r is Ok == (valid_name(n@) && !holds(clones_of(state@, pool@), n@))
            &&& r matches Ok(plan) ==> plan.name@ == n@
            &&& r matches Err(NewError::BadName(fault)) ==> reported(n@, fault)
            &&& r matches Err(NewError::AlreadyExists) ==> valid_name(n@) && holds(
                clones_of(state@, pool@),
                n@,
            )
        },
        name is None ==> {
            &&& r matches Ok(plan)
            &&& exists|i: nat| #[trigger]
                next_number(clones_of(state@, pool@), pool@, i) && plan.name@ == numbered(pool@, i)
        },
{
    let none = PoolState::new();
    let ps = match state.pools.get(pool) {
        Some(ps) => ps,
        None => &none,
    };
    assert(ps@ == clones_of(state@, pool@));
    let clone_name = match name {
        Some(n) => {
            if let Some(fault) = name_fault(n) {
                proof {
                    crate::names::law_one_fault(n@, fault, fault);
                }
                return Err(NewError::BadName(fault));
            }
            if ps.clones.contains(n) {
                return Err(NewError::AlreadyExists);
            }
            n.to_owned()
        },
        None => auto_name(ps, pool),
    };
    let path = join_path(pool_dir(config, pool).as_str(), clone_name.as_str());
    proof {
        lemma_place(config@.pools, pool@);
    }
    let url = match config.pools.get(pool) {
        Some(pc) => pc.repo_url.as_str(),
        None => "",
    };
    if ps.clones.is_empty() {
        let args = clone_args(None, url, path.as_str());
        Ok(ClonePlan { name: clone_name, path, reference: None, args })
    } else {
        let known = ps.clones.value(0).path.as_str();
        let args = clone_args(Some(known), url, path.as_str());
        Ok(ClonePlan { name: clone_name, path, reference: Some(known.to_owned()), args })
    }
}

/// What the user is told before the clone is made.
pub open spec fn creation_lines(
    name: Seq<char>,
    path: Seq<char>,
    reference: Option<Seq<char>>,
) -> Seq<Seq<char>> {
    let first = seq!["Creating clone: "@ + name, "  Path: "@ + path];
    match reference {
        Some(r) => first.push("  Using reference: "@ + r),
        None => first,
    }
}

impl ClonePlan {
    /// What the user is told before the clone is made.
    pub fn announcement(&self) -> (r: Vec<String>)
        ensures
            texts(r@) == creation_lines(
                self.name@,
                self.path@,
                crate::text::opt_text(self.reference),
            ),
    {
        let mut first = "Creating clone: ".to_owned();
        first.append(self.name.as_str());
        let mut place = "  Path: ".to_owned();
        place.append(self.path.as_str());
        let mut r = vec![first, place];
        if let Some(known) = &self.reference {
            let mut line = "  Using reference: ".to_owned();
            line.append(known.as_str());
            r.push(line);
        }
        assert(texts(r@) =~= creation_lines(
            self.name@,
            self.path@,
            crate::text::opt_text(self.reference),
        ));
        r
    }
}

/// The record of a clone that was just made.
pub open spec fn new_record(path: Seq<char>, now: Timestamp) -> CloneView {
    CloneView { path, branch: None, last_used: now, pinned: false }
}

/// The recorded clones with a new one.
pub open spec fn with_new_clone(
    state: Entries<Entries<CloneView>>,
    pool: Seq<char>,
    name: Seq<char>,
    path: Seq<char>,
    now: Timestamp,
) -> Entries<Entries<CloneView>> {
    put(state, pool, put(clones_of(state, pool), name, new_record(path, now)))
}

/// What became of making a clone.
#[derive(Clone, Copy, Debug, PartialEq, Eq, Structural)]
pub enum CloneOutcome {
    /// There was something at its place, so it was not made.
    Occupied,
    /// It could not be cloned.
    CloneFailed,
    /// Its submodules could not be fetched.
    SubmodulesFailed,
    /// It was made.
    Made,
}

/// What to do next to make a clone.
#[derive(Clone, Copy, Debug, PartialEq, Eq, Structural)]
pub enum NewStep {
    /// See whether there is nothing at its place.
    CheckPlace,
    /// Clone the repository.
    Clone,
    /// Fetch the submodules.
    Modules,
    /// This became of it; it is to be recorded.
    Record(CloneOutcome),
}

/// What to do once a step went well or not. Each step is taken only if the one
/// before it went well.
pub open spec fn next_step(step: NewStep, ok: bool) -> NewStep {
    match step {
        NewStep::CheckPlace => if ok {
            NewStep::Clone
        } else {
            NewStep::Record(CloneOutcome::Occupied)
        },
        NewStep::Clone => if ok {
            NewStep::Modules
        } else {
            NewStep::Record(CloneOutcome::CloneFailed)
        },
        NewStep::Modules => if ok {
            NewStep::Record(CloneOutcome::Made)
        } else {
            NewStep::Record(CloneOutcome::SubmodulesFailed)
        },
        NewStep::Record(outcome) => NewStep::Record(outcome),
    }
}

impl NewStep {
    /// What to do first.
    pub fn first() -> (r: Self)
        ensures
            r == NewStep::CheckPlace,
    {
        NewStep::CheckPlace
    }

    /// What to do once the step went well or not.
    pub fn next(self, ok: bool) -> (r: Self)
        ensures
            r == next_step(self, ok),
    {
        match self {
            NewStep::CheckPlace => if ok {
                NewStep::Clone
            } else {
                NewStep::Record(CloneOutcome::Occupied)
            },
            NewStep::Clone => if ok {
                NewStep::Modules
            } else {
                NewStep::Record(CloneOutcome::CloneFailed)
            },
            NewStep::Modules => if ok {
                NewStep::Record(CloneOutcome::Made)
            } else {
                NewStep::Record(CloneOutcome::SubmodulesFailed)
            },
            NewStep::Record(outcome) => NewStep::Record(outcome),
        }
    }
}

/// A clone counts as made if and only if its place was free, it was cloned and its
/// submodules were fetched.
pub proof fn law_made_only_if_all_went_well(free: bool, cloned: bool, modules: bool)
    ensures
        next_step(next_step(next_step(NewStep::CheckPlace, free), cloned), modules)
            == NewStep::Record(CloneOutcome::Made) <==> free && cloned && modules,
{
}

/// What the user is told of a clone that was not made.
pub open spec fn outcome_text(outcome: CloneOutcome, path: Seq<char>) -> Seq<char> {
    match outcome {
        CloneOutcome::Occupied => "Directory already exists: "@ + path,
        CloneOutcome::CloneFailed => "git clone failed"@,
        CloneOutcome::SubmodulesFailed => failure_text(submodule_words()),
        CloneOutcome::Made => Seq::empty(),
    }
}

/// Records a clone once it was made, as given to no branch; one that was not made
/// is not recorded.
pub fn record_clone(
    state: &mut State,
    pool: &str,
    plan: &ClonePlan,
    outcome: CloneOutcome,
    now: Timestamp,
) -> (r: Result<(), String>)
    ensures
        r is Ok == (outcome == CloneOutcome::Made),
        r matches Err(e) ==> e@ == outcome_text(outcome, plan.path@),
        final(state)@ == if r is Ok {
            with_new_clone(old(state)@, pool@, plan.name@, plan.path@, now)
        } else {
            old(state)@
        },
        state_ok(old(state)@) ==> state_ok(final(state)@),
{
    match outcome {
        CloneOutcome::Occupied => {
            let mut e = "Directory already exists: ".to_owned();
            e.append(plan.path.as_str());
            return Err(e);
        },
        CloneOutcome::CloneFailed => {
            return Err("git clone failed".to_owned());
        },
        CloneOutcome::SubmodulesFailed => {
            let args = submodule_args();
            return run_git(&args, false);
        },
        CloneOutcome::Made => {},
    }
    let ghost was = state@;
    proof {
        lemma_place(was, pool@);
    }
    let at = enter_pool(state, pool);
    let fresh = CloneState {
        path: plan.path.clone(),
        assigned_branch: None,
        last_used: now,
        pinned: false,
    };
    let ps = state.pools.value_mut(at);
    ps.clones.insert(plan.name.clone(), fresh);
    assert(state@ =~= with_new_clone(was, pool@, plan.name@, plan.path@, now));
    proof {
        if state_ok(was) {
            let clones = clones_of(was, pool@);
            lemma_clones_unique(was, pool@);
            law_put(clones, plan.name@, new_record(plan.path@, now), pool@);
            law_put_clones(was, pool@, put(clones, plan.name@, new_record(plan.path@, now)));
        }
    }
    Ok(())
}

/// A clone that was added is there, given to no branch and not pinned; every other
/// clone and every other pool is as it was.
pub proof fn law_new_clone(
    state: Entries<Entries<CloneView>>,
    pool: Seq<char>,
    name: Seq<char>,
    path: Seq<char>,
    now: Timestamp,
    other: Seq<char>,
)
    ensures
        ({
            let after = with_new_clone(state, pool, name, path, now);
            let clones = clones_of(state, pool);
            &&& lookup(clones_of(after, pool), name) == Some(new_record(path, now))
            &&& other != name ==> lookup(clones_of(after, pool), other) == lookup(clones, other)
            &&& other != pool ==> clones_of(after, other) == clones_of(state, other)
            &&& !holds(clones, name) ==> clones_of(after, pool).len() == clones.len() + 1
            &&& unique(clones) ==> unique(clones_of(after, pool))
        }),
{
    let clones = clones_of(state, pool);
    law_put(clones, name, new_record(path, now), other);
    law_put(state, pool, put(clones, name, new_record(path, now)), other);
}

/// A clone that was added is found by its name.
pub proof fn law_new_clone_is_found(
    state: Entries<Entries<CloneView>>,
    pool: Seq<char>,
    name: Seq<char>,
    path: Seq<char>,
    now: Timestamp,
)
    ensures
        clone_path(with_new_clone(state, pool, name, path, now), name, Some(pool)) == Ok::<
            Seq<char>,
            CdError,
        >(path),
{
    law_put(clones_of(state, pool), name, new_record(path, now), name);
    law_put(state, pool, put(clones_of(state, pool), name, new_record(path, now)), pool);
}

/// The name that a pool gives to a clone is one that a clone may bear, and no clone
/// of the pool bears it.
pub proof fn law_auto_name_is_valid(clones: Entries<CloneView>, pool: Seq<char>, i: nat)
    requires
        valid_name(pool),
        next_number(clones, pool, i),
    ensures
        valid_name(numbered(pool, i)),
        !holds(clones, numbered(pool, i)),
{
    let name = numbered(pool, i);
    crate::text::lemma_decimal_digits(i);
    reveal_strlit("-");
    assert forall|k: int| 0 <= k < name.len() implies !forbidden(#[trigger] name[k]) by {
        if k < pool.len() {
            assert(name[k] == pool[k]);
        } else if k == pool.len() {
            assert(name[k] == '-');
        } else {
            assert(name[k] == decimal_of(i)[k - pool.len() - 1]);
        }
    }
    assert(name[0] == pool[0]);
    assert(name[pool.len() as int] == '-');
    assert(name.len() >= 3);
}

/// The clones of a pool are made at different places, all below the pool's
/// directory.
pub proof fn law_clones_apart(
    config: ConfigView,
    pool: Seq<char>,
    a: Seq<char>,
    b: Seq<char>,
)
    requires
        valid_name(a),
        valid_name(b),
    ensures
        ({
            let pa = join(pool_place(config, pool), a);
            let pb = join(pool_place(config, pool), b);
            &&& crate::path::within(pa, pool_place(config, pool))
            &&& crate::path::within(pa, pb) <==> a == b
        }),
{
    crate::names::law_valid_name_is_component(pool_place(config, pool), a);
    crate::names::law_valid_name_is_component(pool_place(config, pool), b);
    crate::path::law_siblings_apart(pool_place(config, pool), a, b);
}

/// The name that is given to a clone: the pool's name, a dash and a number. The number is
/// greater than the number of clones, and every smaller one that is so too is taken.
pub proof fn law_given_number(clones: Entries<CloneView>, pool: Seq<char>, i: nat, j: nat)
    requires
        next_number(clones, pool, i),
    ensures
        numbered(pool, i) == pool + "-"@ + decimal_of(i),
        i > clones.len(),
        forall|k: int| 0 <= k < clones.len() ==> (#[trigger] clones[k]).0 != pool + "-"@ + decimal_of(
            i,
        ),
        clones.len() < j < i ==> exists|k: int|
            0 <= k < clones.len() && (#[trigger] clones[k]).0 == pool + "-"@ + decimal_of(j),
{
    assert forall|k: int| 0 <= k < clones.len() implies (#[trigger] clones[k]).0 != pool + "-"@
        + decimal_of(i) by {
        if clones[k].0 == numbered(pool, i) {
            assert(holds(clones, numbered(pool, i)));
        }
    }
    if clones.len() < j < i {
        assert(holds(clones, numbered(pool, j)));
        let k = choose|k: int|
            0 <= k < clones.len() && #[trigger] clones[k].0 == numbered(pool, j);
        assert(clones[k].0 == pool + "-"@ + decimal_of(j));
    }
}

/// A plan that fits puts the clone below the directory of its pool under its own name,
/// and has it cloned from the URL of the pool to that place, sharing the objects of the
/// pool's first clone if there is one.
pub proof fn law_plan(
    plan: ClonePlan,
    config: ConfigView,
    clones: Entries<CloneView>,
    pool: Seq<char>,
)
    requires
        plan_fits(plan, config, clones, pool),
    ensures
        ({
            let url = lookup(config.pools, pool)->0.repo_url;
            &&& plan.path@ == join(join(config.root, pool), plan.name@)
            &&& clones.len() == 0 ==> plan.reference is None && texts(plan.args@) == seq![
                "clone"@,
                url,
                plan.path@,
            ]
            &&& clones.len() > 0 ==> crate::text::opt_text(plan.reference) == Some(
                clones[0].1.path,
            ) && texts(plan.args@) == seq![
                "clone"@,
                "--reference"@,
                clones[0].1.path,
                url,
                plan.path@,
            ]
        }),
{
}

/// The record of a clone that was made: at its place, given to no branch, used when it was
/// made, and not pinned.
pub proof fn law_new_record(
    state: Entries<Entries<CloneView>>,
    pool: Seq<char>,
    name: Seq<char>,
    path: Seq<char>,
    now: Timestamp,
)
    ensures
        lookup(clones_of(with_new_clone(state, pool, name, path, now), pool), name) == Some(
            CloneView { path, branch: None, last_used: now, pinned: false },
        ),
{
    law_new_clone(state, pool, name, path, now, name);
}

/// What becomes of a clone, by the first thing that did not go well; and nothing is done
/// after that.
pub proof fn law_outcomes(cloned: bool, modules: bool)
    ensures
        next_step(NewStep::CheckPlace, true) == NewStep::Clone,
        next_step(NewStep::Clone, true) == NewStep::Modules,
        next_step(NewStep::Modules, true) == NewStep::Record(CloneOutcome::Made),
        next_step(NewStep::CheckPlace, false) == NewStep::Record(CloneOutcome::Occupied),
        next_step(NewStep::Clone, false) == NewStep::Record(CloneOutcome::CloneFailed),
        next_step(NewStep::Modules, false) == NewStep::Record(CloneOutcome::SubmodulesFailed),
        forall|outcome: CloneOutcome, ok: bool|
            #[trigger] next_step(NewStep::Record(outcome), ok) == NewStep::Record(outcome),
{
}

/// What the user is told of a new clone names it, its place and the clone that it shares
/// objects with.
pub proof fn law_new_clone_words(name: Seq<char>, path: Seq<char>, reference: Seq<char>)
    ensures
        creation_lines(name, path, None) == seq!["Creating clone: "@ + name, "  Path: "@ + path],
        creation_lines(name, path, Some(reference)) == seq![
            "Creating clone: "@ + name,
            "  Path: "@ + path,
            "  Using reference: "@ + reference,
        ],
        outcome_text(CloneOutcome::Occupied, path) == "Directory already exists: "@ + path,
        outcome_text(CloneOutcome::CloneFailed, path) == "git clone failed"@,
        outcome_text(CloneOutcome::SubmodulesFailed, path) == "git "@ + crate::text::joined(
            seq!["submodule"@, "update"@, "--init"@, "--recursive"@],
            " "@,
        ) + " failed"@,
        NewError::AlreadyExists.text(name) == "Clone '"@ + name + "' already exists"@,
{
    assert(creation_lines(name, path, Some(reference)) =~= seq![
        "Creating clone: "@ + name,
        "  Path: "@ + path,
        "  Using reference: "@ + reference,
    ]);
}

} // verus!
