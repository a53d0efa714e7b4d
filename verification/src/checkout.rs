//! Checking out a branch, or a pull request from a fork: the clone that is handed
//! out for it, and everything that is done on the way.
//!
//! A [`Checkout`] says what to do next ([`Checkout::step`]); [`Checkout::advance`]
//! takes what came of it.

use vstd::prelude::*;

use crate::devconfig::{find_dev_config_source, source_search, SourceSearch};
use crate::git::{
    checkout_args, create_args, fetch_args, fetch_ref_args, pull_args, submodule_args,
};
use crate::git::{
    checkout_words, create_words, failure_text, fetch_ref_words, fetch_words, pull_words,
    submodule_words,
};
use crate::model::{
    clones_of, enter_pool, entered, state_ok, CloneView, PoolState, State, Timestamp,
};
use crate::path::same_path;
use crate::search::{first_where, lemma_first_where, lemma_is_first, lemma_no_first};
use crate::selection::{select_clean_clone, SelectError, Selection};
use crate::selection::{next_in_line, selection, truthful};
use crate::table::{place, unique, Entries};
use crate::table::{lemma_place, lemma_same_names};
use crate::text::{decimal, is_text};
use crate::text::{decimal_of, opt_text, texts};

verus! {

/// A command that `git` is to run in a clone.
#[derive(Clone, Copy, Debug, PartialEq, Eq, Structural)]
pub enum Task {
    /// Fetch, in a clone that already has the branch; it may fail.
    Refetch,
    /// Pull, in a clone that already has the branch; it may fail.
    Repull,
    /// Update submodules, in a clone that already has the branch; it may fail.
    Remodule,
    /// Fetch what is to be checked out.
    Fetch,
    /// Check the branch out.
    Switch,
    /// Create the branch, where it could not be checked out.
    Create,
    /// Pull, once the branch is checked out; it may fail.
    Pull,
    /// Update submodules.
    Modules,
}

/// Why a checkout failed.
#[derive(Clone, Copy, Debug, PartialEq, Eq, Structural)]
pub enum Failure {
    /// No clone can be had.
    Select(SelectError),
    /// A command failed that must not.
    Git(Task),
}

/// What to do next. Clones are named by where they are listed in the pool.
#[derive(Clone, Copy, Debug, PartialEq, Eq, Structural)]
pub enum Step {
    /// Find out which branch the clone is on.
    ReadBranch(usize),
    /// Find out whether the clone is clean.
    ProbeClean(usize),
    /// Find out whether `other` has development configuration for `clone`.
    ProbeConfig { clone: usize, other: usize },
    /// Run a command in the clone.
    Git(Task, usize),
    /// Tell the time, for a clone that had the branch before.
    TouchTime(usize),
    /// Save the pools, for a clone that had the branch before.
    TouchSave(usize),
    /// Tell the time, for a clone that was given the branch.
    StampTime(usize),
    /// Save the pools, for a clone that was given the branch.
    StampSave(usize),
    /// Copy the development configuration.
    CopyConfig { from: usize, to: usize },
    /// The checkout is done: this is the clone.
    Finish(usize),
    /// The checkout failed.
    Fail(Failure),
}

/// What came of a step.
pub enum Event {
    /// The branch that the clone is on; nothing if it could not be read.
    Branch(Option<String>),
    /// Yes or no: the clone is clean, has configuration, the command succeeded.
    Answer(bool),
    /// The time.
    Time(Timestamp),
    /// It was done.
    Done,
}

/// What an [`Event`] says.
pub enum EventView {
    Branch(Option<Seq<char>>),
    Answer(bool),
    Time(Timestamp),
    Done,
}

impl View for Event {
    type V = EventView;

    open spec fn view(&self) -> EventView {
        match self {
            Event::Branch(b) => EventView::Branch(opt_text(*b)),
            Event::Answer(a) => EventView::Answer(*a),
            Event::Time(t) => EventView::Time(*t),
            Event::Done => EventView::Done,
        }
    }
}

/// A checkout under way.
pub struct CheckoutView {
    /// The clones of all pools.
    pub state: Entries<Entries<CloneView>>,
    /// Where the pool is listed among them.
    pub at: int,
    /// The branch, as it is called in the clone.
    pub branch: Seq<char>,
    /// Whether submodules are updated.
    pub submodules: bool,
    /// The number of the pull request, if it comes from a fork.
    pub pull_request: Option<u64>,
    /// Which clones are clean, as far as it was found out.
    pub clean: Seq<Option<bool>>,
    /// Which clones have development configuration, as far as it was found out.
    pub configs: Seq<Option<bool>>,
    /// What to do next.
    pub step: Step,
}

/// The first clone that is assigned to the branch.
pub open spec fn assigned_to(clones: Entries<CloneView>, branch: Seq<char>) -> Option<int> {
    first_where(clones, |e: (Seq<char>, CloneView)| e.1.branch == Some(branch))
}

/// Finds the first clone that is assigned to the branch.
pub fn find_assigned(pool: &PoolState, branch: &str) -> (r: Option<usize>)
    ensures
        r matches Some(i) ==> i < pool@.len() && assigned_to(pool@, branch@) == Some(i as int)
            && pool@[i as int].1.branch == Some(branch@),
        r is None ==> assigned_to(pool@, branch@) is None,
{
    let ghost p = |e: (Seq<char>, CloneView)| e.1.branch == Some(branch@);
    let n = pool.clones.len();
    for i in 0..n
        invariant
            n == pool@.len(),
            p == (|e: (Seq<char>, CloneView)| e.1.branch == Some(branch@)),
            forall|j: int| 0 <= j < i ==> !p(#[trigger] pool@[j]),
    {
        if is_text(&pool.clones.value(i).assigned_branch, branch) {
            proof {
                lemma_is_first(pool@, p, i as int);
            }
            return Some(i);
        }
    }
    proof {
        lemma_no_first(pool@, p);
    }
    None
}

impl CheckoutView {
    /// The clones of the pool.
    pub open spec fn clones(self) -> Entries<CloneView> {
        self.state[self.at].1
    }

    /// With another step to do next.
    pub open spec fn go(self, step: Step) -> CheckoutView {
        CheckoutView { step, ..self }
    }

    /// With another record of the clone.
    pub open spec fn with_clone(self, i: usize, clone: CloneView) -> CheckoutView {
        let clones = self.clones().update(i as int, (self.clones()[i as int].0, clone));
        CheckoutView { state: self.state.update(self.at, (self.state[self.at].0, clones)), ..self }
    }

    /// With the clone recorded as being on this branch.
    pub open spec fn with_branch(self, i: usize, branch: Option<Seq<char>>) -> CheckoutView {
        self.with_clone(i, CloneView { branch, ..self.clones()[i as int].1 })
    }

    /// With the clone recorded as used at this time.
    pub open spec fn with_use(self, i: usize, time: Timestamp) -> CheckoutView {
        self.with_clone(i, CloneView { last_used: time, ..self.clones()[i as int].1 })
    }

    /// Goes on to find a clean clone.
    pub open spec fn choosing(self) -> CheckoutView {
        match selection(self.clones(), self.clean) {
            Ok(Selection::Probe(i)) => self.go(Step::ProbeClean(i)),
            Ok(Selection::Take(i)) => self.seeking(i),
            Err(e) => self.go(Step::Fail(Failure::Select(e))),
        }
    }

    /// Goes on to find development configuration for the clone that was chosen, and
    /// then to fetch.
    pub open spec fn seeking(self, i: usize) -> CheckoutView {
        match source_search(self.clones(), self.clones()[i as int].1.path, self.configs) {
            SourceSearch::Look(k) => self.go(Step::ProbeConfig { clone: i, other: k }),
            _ => self.go(Step::Git(Task::Fetch, i)),
        }
    }

    /// Goes on once the clone was given the branch and submodules are up to date.
    pub open spec fn closing(self, i: usize) -> CheckoutView {
        match source_search(self.clones(), self.clones()[i as int].1.path, self.configs) {
            SourceSearch::Use(k) => self.go(Step::CopyConfig { from: k, to: i }),
            _ => self.go(Step::Finish(i)),
        }
    }

    /// Goes on after a command of `git`.
    pub open spec fn after_git(self, task: Task, i: usize, ok: bool) -> CheckoutView {
        let time = self.go(Step::StampTime(i));
        let fail = self.go(Step::Fail(Failure::Git(task)));
        match task {
            Task::Refetch => self.go(Step::Git(Task::Repull, i)),
            Task::Repull => if self.submodules {
                self.go(Step::Git(Task::Remodule, i))
            } else {
                self.go(Step::TouchTime(i))
            },
            Task::Remodule => self.go(Step::TouchTime(i)),
            Task::Fetch => if ok {
                self.go(Step::Git(Task::Switch, i))
            } else {
                fail
            },
            Task::Switch => if self.pull_request is Some {
                if ok {
                    time
                } else {
                    fail
                }
            } else if ok {
                self.go(Step::Git(Task::Pull, i))
            } else {
                self.go(Step::Git(Task::Create, i))
            },
            Task::Create => if ok {
                time
            } else {
                fail
            },
            Task::Pull => time,
            Task::Modules => if ok {
                self.closing(i)
            } else {
                fail
            },
        }
    }

    /// Goes on after what came of the step. What does not answer the step changes
    /// nothing.
    pub open spec fn next(self, event: EventView) -> CheckoutView {
        match (self.step, event) {
            (Step::ReadBranch(i), EventView::Branch(b)) => if b == Some(self.branch) {
                self.go(Step::Git(Task::Refetch, i))
            } else {
                self.with_branch(i, b).choosing()
            },
            (Step::ProbeClean(i), EventView::Answer(a)) => (CheckoutView {
                clean: self.clean.update(i as int, Some(a)),
                ..self
            }).choosing(),
            (Step::ProbeConfig { clone, other }, EventView::Answer(a)) => (CheckoutView {
                configs: self.configs.update(other as int, Some(a)),
                ..self
            }).seeking(clone),
            (Step::Git(task, i), EventView::Answer(ok)) => self.after_git(task, i, ok),
            (Step::TouchTime(i), EventView::Time(t)) => self.with_use(i, t).go(Step::TouchSave(i)),
            (Step::TouchSave(i), EventView::Done) => self.go(Step::Finish(i)),
            (Step::StampTime(i), EventView::Time(t)) => self.with_branch(
                i,
                Some(self.branch),
            ).with_use(i, t).go(Step::StampSave(i)),
            (Step::StampSave(i), EventView::Done) => if self.submodules {
                self.go(Step::Git(Task::Modules, i))
            } else {
                self.closing(i)
            },
            (Step::CopyConfig { from, to }, EventView::Done) => self.go(Step::Finish(to)),
            _ => self,
        }
    }

    /// Every clone that is spoken of is in the pool.
    pub open spec fn wf(self) -> bool {
        let n = self.clones().len();
        &&& 0 <= self.at < self.state.len()
        &&& n <= usize::MAX
        &&& self.clean.len() == n
        &&& self.configs.len() == n
        &&& match self.step {
            Step::ReadBranch(i) => i < n,
            Step::ProbeClean(i) => i < n,
            Step::ProbeConfig { clone, other } => clone < n && other < n,
            Step::Git(_, i) => i < n,
            Step::TouchTime(i) => i < n,
            Step::TouchSave(i) => i < n,
            Step::StampTime(i) => i < n,
            Step::StampSave(i) => i < n,
            Step::CopyConfig { from, to } => from < n && to < n,
            Step::Finish(i) => i < n,
            Step::Fail(_) => true,
        }
    }
}

/// Nothing is known of any clone yet.
pub open spec fn unknown(n: nat) -> Seq<Option<bool>> {
    Seq::new(n, |i: int| None::<bool>)
}

/// How a checkout of a branch begins: with the clone that is assigned to it, if
/// there is one; else with the search for a clone.
pub open spec fn begun(
    state: Entries<Entries<CloneView>>,
    pool: Seq<char>,
    branch: Seq<char>,
    submodules: bool,
    pull_request: Option<u64>,
) -> CheckoutView {
    let all = entered(state, pool);
    let at = place(all, pool)->0;
    let start = CheckoutView {
        state: all,
        at,
        branch,
        submodules,
        pull_request,
        clean: unknown(all[at].1.len()),
        configs: unknown(all[at].1.len()),
        step: Step::Fail(Failure::Select(SelectError::NoClones)),
    };
    match assigned_to(start.clones(), branch) {
        Some(i) => if pull_request is Some {
            start.go(Step::TouchTime(i as usize))
        } else {
            start.go(Step::ReadBranch(i as usize))
        },
        None => start.choosing(),
    }
}

/// The branch that a pull request from a fork is checked out as.
pub open spec fn pull_request_branch(number: u64) -> Seq<char> {
    "pr/"@ + decimal_of(number as nat)
}

/// What a pull request from a fork is fetched as.
pub open spec fn pull_request_ref(number: u64) -> Seq<char> {
    "refs/pull/"@ + decimal_of(number as nat) + "/head:"@ + pull_request_branch(number)
}

/// The words of a command.
pub open spec fn task_words(
    task: Task,
    branch: Seq<char>,
    pull_request: Option<u64>,
) -> Seq<Seq<char>> {
    match task {
        Task::Refetch => fetch_words(),
        Task::Repull => pull_words(),
        Task::Remodule => submodule_words(),
        Task::Fetch => match pull_request {
            Some(n) => fetch_ref_words(pull_request_ref(n)),
            None => fetch_words(),
        },
        Task::Switch => checkout_words(branch),
        Task::Create => create_words(branch),
        Task::Pull => pull_words(),
        Task::Modules => submodule_words(),
    }
}

/// What the user is told before a step is taken.
pub open spec fn announced(v: CheckoutView) -> Seq<Seq<char>> {
    match v.step {
        Step::Git(task, i) => match task {
            Task::Refetch => seq!["Pulling latest..."@],
            Task::Remodule => seq!["Updating submodules..."@],
            Task::Modules => seq!["Updating submodules..."@],
            Task::Fetch => seq![
                "Using clone: "@ + v.clones()[i as int].0,
                match v.pull_request {
                    Some(n) => "Fetching PR #"@ + decimal_of(n as nat) + "..."@,
                    None => "Fetching..."@,
                },
            ],
            Task::Switch => match v.pull_request {
                Some(_) => Seq::empty(),
                None => seq!["Checking out "@ + v.branch + "..."@],
            },
            _ => Seq::empty(),
        },
        Step::TouchTime(i) => match v.pull_request {
            Some(n) => seq![
                "PR #"@ + decimal_of(n as nat) + " already on clone: "@ + v.clones()[i as int].0,
            ],
            None => Seq::empty(),
        },
        Step::CopyConfig { from, .. } => seq![
            "Copying dev configs from "@ + v.clones()[from as int].1.path + "..."@,
        ],
        _ => Seq::empty(),
    }
}

/// What the user is told of the branch that a clone is found to be on.
pub open spec fn branch_remark(
    v: CheckoutView,
    i: int,
    actual: Option<Seq<char>>,
) -> Seq<char> {
    let name = v.clones()[i].0;
    if actual == Some(v.branch) {
        "Branch '"@ + v.branch + "' already on clone: "@ + name
    } else {
        "Clone '"@ + name + "' was recorded as '"@ + v.branch + "' but is actually on '"@ + (
        match actual {
            Some(b) => b,
            None => "unknown"@,
        }) + "'. Correcting state."@
    }
}

/// What the user is told of a command that failed but may, and why it did.
pub open spec fn warning_text(task: Task, why: Seq<char>) -> Option<Seq<char>> {
    match task {
        Task::Refetch => Some("Warning: fetch failed: "@ + why),
        Task::Repull => Some("Warning: pull failed: "@ + why),
        Task::Remodule => Some("Warning: submodule update failed: "@ + why),
        _ => None,
    }
}

/// What the user is told of a command that failed but may, and why it did.
pub fn task_warning(task: Task, why: &str) -> (r: Option<String>)
    ensures
        opt_text(r) == warning_text(task, why@),
{
    let mut r = match task {
        Task::Refetch => "Warning: fetch failed: ".to_owned(),
        Task::Repull => "Warning: pull failed: ".to_owned(),
        Task::Remodule => "Warning: submodule update failed: ".to_owned(),
        _ => {
            return None;
        },
    };
    r.append(why);
    Some(r)
}

/// A checkout of a branch or a pull request, under way.
pub struct Checkout {
    state: State,
    at: usize,
    branch: String,
    submodules: bool,
    pull_request: Option<u64>,
    clean: Vec<Option<bool>>,
    configs: Vec<Option<bool>>,
    step: Step,
}

impl View for Checkout {
    type V = CheckoutView;

    closed spec fn view(&self) -> CheckoutView {
        CheckoutView {
            state: self.state@,
            at: self.at as int,
            branch: self.branch@,
            submodules: self.submodules,
            pull_request: self.pull_request,
            clean: self.clean@,
            configs: self.configs@,
            step: self.step,
        }
    }
}

fn unknown_answers(n: usize) -> (r: Vec<Option<bool>>)
    ensures
        r@ == unknown(n as nat),
{
    let mut r: Vec<Option<bool>> = Vec::new();
    for i in 0..n
        invariant
            r@ == unknown(i as nat),
    {
        r.push(None);
        assert(r@ =~= unknown((i + 1) as nat));
    }
    r
}

impl Checkout {
    /// Begins to check a branch out in a pool.
    pub fn branch(state: State, pool: &str, branch: &str, no_submodules: bool) -> (r: Self)
        ensures
            r@ == begun(state@, pool@, branch@, !no_submodules, None),
            r@.wf(),
    {
        Self::begin(state, pool, branch.to_owned(), !no_submodules, None)
    }

    /// Begins to check a pull request from a fork out in a pool.
    pub fn pull_request(state: State, pool: &str, number: u64) -> (r: Self)
        ensures
            r@ == begun(state@, pool@, pull_request_branch(number), true, Some(number)),
            r@.wf(),
    {
        let mut branch = "pr/".to_owned();
        branch.append(decimal(number as u128).as_str());
        Self::begin(state, pool, branch, true, Some(number))
    }

    fn begin(
        state: State,
        pool: &str,
        branch: String,
        submodules: bool,
        pull_request: Option<u64>,
    ) -> (r: Self)
        ensures
            r@ == begun(state@, pool@, branch@, submodules, pull_request),
            r@.wf(),
    {
        let mut all = state;
        let at = enter_pool(&mut all, pool);
        let n = all.pools.value(at).clones.len();
        let assigned = find_assigned(all.pools.value(at), branch.as_str());
        let mut c = Checkout {
            state: all,
            at,
            branch,
            submodules,
            pull_request,
            clean: unknown_answers(n),
            configs: unknown_answers(n),
            step: Step::Fail(Failure::Select(SelectError::NoClones)),
        };
        match assigned {
            Some(i) => {
                if pull_request.is_some() {
                    c.step = Step::TouchTime(i);
                } else {
                    c.step = Step::ReadBranch(i);
                }
            },
            None => {
                c.choose_clone();
            },
        }
        c
    }

    /// What to do next.
    pub fn step(&self) -> (r: Step)
        ensures
            r == self@.step,
    {
        self.step
    }

    /// The clones of all pools, as they are now recorded.
    pub fn state(&self) -> (r: &State)
        ensures
            r@ == self@.state,
    {
        &self.state
    }

    /// The pool.
    pub fn pool(&self) -> (r: &PoolState)
        requires
            self@.wf(),
        ensures
            r@ == self@.clones(),
    {
        self.state.pools.value(self.at)
    }

    /// The words of a command that `git` is to run.
    pub fn task_args(&self, task: Task) -> (r: Vec<String>)
        ensures
            texts(r@) == task_words(task, self@.branch, self@.pull_request),
            task == Task::Pull || task == Task::Repull ==> texts(r@) == seq![
                "pull"@,
                "--ff-only"@,
            ],
            task == Task::Refetch ==> texts(r@) == seq!["fetch"@, "origin"@],
    {
        match task {
            Task::Refetch => fetch_args(),
            Task::Repull => pull_args(),
            Task::Remodule => submodule_args(),
            Task::Fetch => match self.pull_request {
                Some(number) => {
                    let digits = decimal(number as u128);
                    let mut refspec = "refs/pull/".to_owned();
                    refspec.append(digits.as_str());
                    refspec.append("/head:");
                    let mut local = "pr/".to_owned();
                    local.append(digits.as_str());
                    refspec.append(local.as_str());
                    fetch_ref_args(refspec.as_str())
                },
                None => fetch_args(),
            },
            Task::Switch => checkout_args(self.branch.as_str()),
            Task::Create => create_args(self.branch.as_str()),
            Task::Pull => pull_args(),
            Task::Modules => submodule_args(),
        }
    }

    /// What the user is told before the step is taken.
    pub fn announcement(&self) -> (r: Vec<String>)
        requires
            self@.wf(),
        ensures
            texts(r@) == announced(self@),
    {
        let clones = &self.state.pools.value(self.at).clones;
        let mut r: Vec<String> = Vec::new();
        match self.step {
            Step::Git(task, i) => match task {
                Task::Refetch => {
                    r.push("Pulling latest...".to_owned());
                },
                Task::Remodule => {
                    r.push("Updating submodules...".to_owned());
                },
                Task::Modules => {
                    r.push("Updating submodules...".to_owned());
                },
                Task::Fetch => {
                    let mut first = "Using clone: ".to_owned();
                    first.append(clones.name(i).as_str());
                    r.push(first);
                    match self.pull_request {
                        Some(number) => {
                            let mut line = "Fetching PR #".to_owned();
                            line.append(decimal(number as u128).as_str());
                            line.append("...");
                            r.push(line);
                        },
                        None => {
                            r.push("Fetching...".to_owned());
                        },
                    }
                },
                Task::Switch => {
                    if self.pull_request.is_none() {
                        let mut line = "Checking out ".to_owned();
                        line.append(self.branch.as_str());
                        line.append("...");
                        r.push(line);
                    }
                },
                _ => {},
            },
            Step::TouchTime(i) => {
                if let Some(number) = self.pull_request {
                    let mut line = "PR #".to_owned();
                    line.append(decimal(number as u128).as_str());
                    line.append(" already on clone: ");
                    line.append(clones.name(i).as_str());
                    r.push(line);
                }
            },
            Step::CopyConfig { from, .. } => {
                let mut line = "Copying dev configs from ".to_owned();
                line.append(clones.value(from).path.as_str());
                line.append("...");
                r.push(line);
            },
            _ => {},
        }
        assert(texts(r@) =~= announced(self@));
        r
    }

    /// What the user is told of the branch that clone `i` is found to be on.
    pub fn remark_on_branch(&self, i: usize, actual: &Option<String>) -> (r: String)
        requires
            self@.wf(),
            i < self@.clones().len(),
        ensures
            r@ == branch_remark(self@, i as int, opt_text(*actual)),
    {
        let name = self.state.pools.value(self.at).clones.name(i).as_str();
        if is_text(actual, self.branch.as_str()) {
            let mut r = "Branch '".to_owned();
            r.append(self.branch.as_str());
            r.append("' already on clone: ");
            r.append(name);
            r
        } else {
            let mut r = "Clone '".to_owned();
            r.append(name);
            r.append("' was recorded as '");
            r.append(self.branch.as_str());
            r.append("' but is actually on '");
            match actual {
                Some(b) => {
                    r.append(b.as_str());
                },
                None => {
                    r.append("unknown");
                },
            }
            r.append("'. Correcting state.");
            r
        }
    }

    /// What the user is told of a checkout that failed.
    pub fn failure_message(&self, failure: Failure) -> (r: String)
        ensures
            r@ == match failure {
                Failure::Select(e) => e.text(),
                Failure::Git(task) => failure_text(
                    task_words(task, self@.branch, self@.pull_request),
                ),
            },
    {
        match failure {
            Failure::Select(e) => e.message(),
            Failure::Git(task) => {
                let args = self.task_args(task);
                match crate::git::run_git(&args, false) {
                    Err(e) => e,
                    Ok(_) => String::new(),
                }
            },
        }
    }

    fn choose_clone(&mut self)
        requires
            old(self)@.go(Step::Fail(Failure::Select(SelectError::NoClones))).wf(),
        ensures
            final(self)@ == old(self)@.choosing(),
            final(self)@.wf(),
    {
        match select_clean_clone(self.state.pools.value(self.at), &self.clean) {
            Ok(Selection::Probe(i)) => {
                self.step = Step::ProbeClean(i);
            },
            Ok(Selection::Take(i)) => {
                self.seek_config(i);
            },
            Err(e) => {
                self.step = Step::Fail(Failure::Select(e));
            },
        }
    }

    fn seek_config(&mut self, i: usize)
        requires
            old(self)@.go(Step::Finish(i)).wf(),
        ensures
            final(self)@ == old(self)@.seeking(i),
            final(self)@.wf(),
    {
        let pool = self.state.pools.value(self.at);
        match find_dev_config_source(pool, pool.clones.value(i).path.as_str(), &self.configs) {
            SourceSearch::Look(k) => {
                self.step = Step::ProbeConfig { clone: i, other: k };
            },
            _ => {
                self.step = Step::Git(Task::Fetch, i);
            },
        }
    }

    fn close(&mut self, i: usize)
        requires
            old(self)@.go(Step::Finish(i)).wf(),
        ensures
            final(self)@ == old(self)@.closing(i),
            final(self)@.wf(),
    {
        let pool = self.state.pools.value(self.at);
        match find_dev_config_source(pool, pool.clones.value(i).path.as_str(), &self.configs) {
            SourceSearch::Use(k) => {
                self.step = Step::CopyConfig { from: k, to: i };
            },
            _ => {
                self.step = Step::Finish(i);
            },
        }
    }

    fn record_branch(&mut self, i: usize, branch: Option<String>)
        requires
            old(self)@.wf(),
            i < old(self)@.clones().len(),
        ensures
            final(self)@ == old(self)@.with_branch(i, opt_text(branch)),
    {
        let pool = self.state.pools.value_mut(self.at);
        let clone = pool.clones.value_mut(i);
        clone.assigned_branch = branch;
    }

    fn record_use(&mut self, i: usize, time: Timestamp)
        requires
            old(self)@.wf(),
            i < old(self)@.clones().len(),
        ensures
            final(self)@ == old(self)@.with_use(i, time),
    {
        let pool = self.state.pools.value_mut(self.at);
        let clone = pool.clones.value_mut(i);
        clone.last_used = time;
    }

    fn after_task(&mut self, task: Task, i: usize, ok: bool)
        requires
            old(self)@.go(Step::Finish(i)).wf(),
        ensures
            final(self)@ == old(self)@.after_git(task, i, ok),
            final(self)@.wf(),
    {
        match task {
            Task::Refetch => {
                self.step = Step::Git(Task::Repull, i);
            },
            Task::Repull => {
                if self.submodules {
                    self.step = Step::Git(Task::Remodule, i);
                } else {
                    self.step = Step::TouchTime(i);
                }
            },
            Task::Remodule => {
                self.step = Step::TouchTime(i);
            },
            Task::Fetch => {
                if ok {
                    self.step = Step::Git(Task::Switch, i);
                } else {
                    self.step = Step::Fail(Failure::Git(task));
                }
            },
            Task::Switch => {
                if self.pull_request.is_some() {
                    if ok {
                        self.step = Step::StampTime(i);
                    } else {
                        self.step = Step::Fail(Failure::Git(task));
                    }
                } else if ok {
                    self.step = Step::Git(Task::Pull, i);
                } else {
                    self.step = Step::Git(Task::Create, i);
                }
            },
            Task::Create => {
                if ok {
                    self.step = Step::StampTime(i);
                } else {
                    self.step = Step::Fail(Failure::Git(task));
                }
            },
            Task::Pull => {
                self.step = Step::StampTime(i);
            },
            Task::Modules => {
                if ok {
                    self.close(i);
                } else {
                    self.step = Step::Fail(Failure::Git(task));
                }
            },
        }
    }

    /// Goes on after what came of the step.
    pub fn advance(self, event: Event) -> (r: Self)
        requires
            self@.wf(),
        ensures
            r@ == self@.next(event@),
            r@.wf(),
    {
        let mut c = self;
        match (c.step, event) {
            (Step::ReadBranch(i), Event::Branch(b)) => {
                if is_text(&b, c.branch.as_str()) {
                    c.step = Step::Git(Task::Refetch, i);
                } else {
                    c.record_branch(i, b);
                    c.choose_clone();
                }
            },
            (Step::ProbeClean(i), Event::Answer(a)) => {
                c.clean.set(i, Some(a));
                c.choose_clone();
            },
            (Step::ProbeConfig { clone, other }, Event::Answer(a)) => {
                c.configs.set(other, Some(a));
                c.seek_config(clone);
            },
            (Step::Git(task, i), Event::Answer(ok)) => {
                c.after_task(task, i, ok);
            },
            (Step::TouchTime(i), Event::Time(t)) => {
                c.record_use(i, t);
                c.step = Step::TouchSave(i);
            },
            (Step::TouchSave(i), Event::Done) => {
                c.step = Step::Finish(i);
            },
            (Step::StampTime(i), Event::Time(t)) => {
                let branch = c.branch.clone();
                c.record_branch(i, Some(branch));
                c.record_use(i, t);
                c.step = Step::StampSave(i);
            },
            (Step::StampSave(i), Event::Done) => {
                if c.submodules {
                    c.step = Step::Git(Task::Modules, i);
                } else {
                    c.close(i);
                }
            },
            (Step::CopyConfig { from, to }, Event::Done) => {
                c.step = Step::Finish(to);
            },
            _ => {},
        }
        c
    }
}

// ---------------------------------------------------------------------------
// What holds of every checkout
// ---------------------------------------------------------------------------

/// The clone whose record a step may change.
pub open spec fn touched(step: Step) -> Option<usize> {
    match step {
        Step::ReadBranch(i) => Some(i),
        Step::TouchTime(i) => Some(i),
        Step::StampTime(i) => Some(i),
        _ => None,
    }
}

/// A step changes the record of at most one clone, and only its branch and the
/// time of its use. Other pools stay as they are, and no clone comes, goes, moves
/// or changes its name or pin.
pub proof fn law_step_changes_one_record(v: CheckoutView, event: EventView, k: int)
    requires
        v.wf(),
        0 <= k < v.clones().len(),
    ensures
        ({
            let w = v.next(event);
            let a = v.clones()[k];
            let b = w.clones()[k];
            &&& w.at == v.at && w.branch == v.branch && w.pull_request == v.pull_request
            &&& w.state.len() == v.state.len()
            &&& w.state[w.at].0 == v.state[v.at].0
            &&& forall|p: int|
                0 <= p < v.state.len() && p != v.at ==> #[trigger] w.state[p] == v.state[p]
            &&& w.clones().len() == v.clones().len()
            &&& b.0 == a.0 && b.1.path == a.1.path && b.1.pinned == a.1.pinned
            &&& b != a ==> (touched(v.step) matches Some(i) && i == k)
        }),
{
}

/// No name comes to occur twice.
pub proof fn law_step_keeps_names_unique(v: CheckoutView, event: EventView)
    requires
        v.wf(),
        state_ok(v.state),
    ensures
        state_ok(v.next(event).state),
{
    let w = v.next(event);
    assert forall|k: int| 0 <= k < v.clones().len() implies #[trigger] w.clones()[k].0
        == v.clones()[k].0 by {
        law_step_changes_one_record(v, event, k);
    }
    assert(w.clones().len() == v.clones().len());
    lemma_same_names(v.clones(), w.clones(), v.branch);
    assert(unique(v.state[v.at].1));
    assert forall|p: int| 0 <= p < v.state.len() implies #[trigger] w.state[p].0
        == v.state[p].0 by {}
    lemma_same_names(v.state, w.state, v.branch);
    assert forall|p: int| 0 <= p < w.state.len() implies unique(#[trigger] w.state[p].1) by {
        if p != v.at {
            assert(w.state[p] == v.state[p]);
        }
    }
}

/// What is known at each step. Up to the moment when a clone is given the branch,
/// it is clean and no clone that may be clean comes before it. A clone that is said
/// to have the branch is recorded so.
pub open spec fn sound(v: CheckoutView) -> bool {
    let clones = v.clones();
    let free = |i: usize|
        next_in_line(clones, v.clean, i as int) && v.clean[i as int] == Some(true);
    let given = |i: usize| clones[i as int].1.branch == Some(v.branch);
    match v.step {
        Step::ReadBranch(i) => given(i),
        Step::ProbeClean(i) => v.clean[i as int] is None,
        Step::ProbeConfig { clone, other } => free(clone) && v.configs[other as int] is None,
        Step::Git(task, i) => match task {
            Task::Refetch => given(i),
            Task::Repull => given(i),
            Task::Remodule => given(i),
            Task::Modules => given(i),
            _ => free(i),
        },
        Step::TouchTime(i) => given(i),
        Step::TouchSave(i) => given(i),
        Step::StampTime(i) => free(i),
        Step::StampSave(i) => given(i),
        Step::CopyConfig { from, to } => given(to),
        Step::Finish(i) => given(i),
        Step::Fail(_) => true,
    }
}

proof fn lemma_choosing_sound(v: CheckoutView)
    requires
        v.go(Step::Fail(Failure::Select(SelectError::NoClones))).wf(),
    ensures
        sound(v.choosing()),
        v.choosing().wf(),
{
    if let Ok(found) = selection(v.clones(), v.clean) {
        let i = choose|i: int| next_in_line(v.clones(), v.clean, i);
        assert(next_in_line(v.clones(), v.clean, i));
        assert(i as usize == i);
        match found {
            Selection::Probe(k) => {
                assert(v.clean[i] is None) by {
                    if let Some(a) = v.clean[i] {
                        assert(!a);
                    }
                }
            },
            Selection::Take(k) => {
                lemma_seeking_sound(v, k);
            },
        }
    }
}

proof fn lemma_seeking_sound(v: CheckoutView, i: usize)
    requires
        v.go(Step::Finish(i)).wf(),
        next_in_line(v.clones(), v.clean, i as int),
        v.clean[i as int] == Some(true),
    ensures
        sound(v.seeking(i)),
        v.seeking(i).wf(),
{
    lemma_source_known(v, i);
}

proof fn lemma_source_known(v: CheckoutView, i: usize)
    requires
        v.go(Step::Finish(i)).wf(),
    ensures
        ({
            let found = source_search(v.clones(), v.clones()[i as int].1.path, v.configs);
            &&& found matches SourceSearch::Look(k) ==> k < v.clones().len() && v.configs[k as int]
                is None
            &&& found matches SourceSearch::Use(k) ==> k < v.clones().len() && v.configs[k as int]
                == Some(true)
        }),
{
    let clones = v.clones();
    let exclude = clones[i as int].1.path;
    let all = Seq::new(clones.len(), |k: int| k);
    let p = |k: int| crate::devconfig::may_serve(clones, exclude, v.configs, k);
    lemma_first_where(all, p);
    if let Some(k) = first_where(all, p) {
        assert(all[k] == k);
        assert(k as usize == k);
        if let Some(a) = v.configs[k] {
            assert(a);
        }
    }
}

/// Every checkout begins with what is known at its first step.
pub proof fn law_checkout_begins_sound(
    state: Entries<Entries<CloneView>>,
    pool: Seq<char>,
    branch: Seq<char>,
    submodules: bool,
    pull_request: Option<u64>,
)
    requires
        clones_of(state, pool).len() <= usize::MAX,
    ensures
        sound(begun(state, pool, branch, submodules, pull_request)),
        begun(state, pool, branch, submodules, pull_request).wf(),
{
    let all = entered(state, pool);
    lemma_place(state, pool);
    lemma_place(all, pool);
    if place(state, pool) is None {
        assert(all[state.len() as int].0 == pool);
        let at = place(all, pool)->0;
        if at < state.len() {
            assert(state[at].0 == pool);
        }
    }
    let at = place(all, pool)->0;
    assert(all[at].1 == clones_of(state, pool));
    let clones = all[at].1;
    lemma_first_where(clones, |e: (Seq<char>, CloneView)| e.1.branch == Some(branch));
    let start = CheckoutView {
        state: all,
        at,
        branch,
        submodules,
        pull_request,
        clean: unknown(clones.len()),
        configs: unknown(clones.len()),
        step: Step::Fail(Failure::Select(SelectError::NoClones)),
    };
    assert(start.go(Step::Fail(Failure::Select(SelectError::NoClones))) == start);
    if assigned_to(clones, branch) is None {
        lemma_choosing_sound(start);
    } else {
        let i = assigned_to(clones, branch)->0;
        assert(i as usize == i);
    }
}

/// What is known at a step stays so at the next, whatever comes of it.
pub proof fn law_checkout_stays_sound(v: CheckoutView, event: EventView)
    requires
        v.wf(),
        sound(v),
    ensures
        sound(v.next(event)),
        v.next(event).wf(),
{
    match (v.step, event) {
        (Step::ReadBranch(i), EventView::Branch(b)) => {
            if b != Some(v.branch) {
                lemma_choosing_sound(v.with_branch(i, b));
            }
        },
        (Step::ProbeClean(i), EventView::Answer(a)) => {
            lemma_choosing_sound(
                CheckoutView { clean: v.clean.update(i as int, Some(a)), ..v },
            );
        },
        (Step::ProbeConfig { clone, other }, EventView::Answer(a)) => {
            lemma_seeking_sound(
                CheckoutView { configs: v.configs.update(other as int, Some(a)), ..v },
                clone,
            );
        },
        (Step::Git(task, i), EventView::Answer(ok)) => {
            lemma_source_known(v, i);
        },
        (Step::StampSave(i), EventView::Done) => {
            lemma_source_known(v, i);
        },
        _ => {},
    }
}

/// When a checkout is done, the clone that is handed out is recorded as assigned to
/// the branch.
pub proof fn law_finished_clone_has_branch(v: CheckoutView, i: usize)
    requires
        v.wf(),
        sound(v),
        v.step == Step::Finish(i),
    ensures
        v.clones()[i as int].1.branch == Some(v.branch),
{
}

/// A clone that is about to be given the branch is clean, and of all clean clones
/// it is the one to be tried first.
pub proof fn law_given_clone_is_best(v: CheckoutView, i: usize, really_clean: Seq<bool>, other: int)
    requires
        v.wf(),
        sound(v),
        v.step == Step::StampTime(i),
        truthful(v.clean, really_clean),
        0 <= other < v.clones().len(),
        really_clean[other],
        other != i,
    ensures
        really_clean[i as int],
        crate::selection::sooner(v.clones(), i as int, other),
{
    assert(v.clean[i as int] == Some(true));
    assert(v.clean[other] != Some(false));
}

/// Before anything can go wrong with submodules, the pools have been saved with the
/// branch in them: the step that updates them follows only on the save.
pub proof fn law_submodules_come_after_save(v: CheckoutView, event: EventView, i: usize)
    requires
        v.wf(),
        sound(v),
        v.next(event).step == Step::Git(Task::Modules, i),
        v.next(event).step != v.step,
    ensures
        v.step == Step::StampSave(i),
        v.next(event).state == v.state,
        v.clones()[i as int].1.branch == Some(v.branch),
{
}

/// A clone that is not on the branch that it is recorded with is recorded anew, as
/// being on the branch that it is on, and the search for a clone goes on from there.
pub proof fn law_stale_record_is_corrected(v: CheckoutView, i: usize, actual: Option<Seq<char>>)
    requires
        v.wf(),
        v.step == Step::ReadBranch(i),
        actual != Some(v.branch),
    ensures
        v.next(EventView::Branch(actual)).clones()[i as int].1.branch == actual,
        v.next(EventView::Branch(actual)) == v.with_branch(i, actual).choosing(),
{
}

/// A branch or a pull request that was checked out is found again: the next checkout
/// of it begins with a clone that is assigned to it.
pub proof fn law_checkout_is_remembered(v: CheckoutView, i: usize, submodules: bool)
    requires
        v.wf(),
        sound(v),
        state_ok(v.state),
        v.step == Step::Finish(i),
    ensures
        ({
            let again = begun(v.state, v.state[v.at].0, v.branch, submodules, v.pull_request);
            &&& again.state == v.state
            &&& exists|j: usize|
                {
                    &&& j < v.clones().len()
                    &&& #[trigger] v.clones()[j as int].1.branch == Some(v.branch)
                    &&& again.step == if v.pull_request is Some {
                        Step::TouchTime(j)
                    } else {
                        Step::ReadBranch(j)
                    }
                }
        }),
{
    crate::table::lemma_place_unique(v.state, v.at);
    let p = |e: (Seq<char>, CloneView)| e.1.branch == Some(v.branch);
    lemma_first_where(v.clones(), p);
    assert(p(v.clones()[i as int]));
    let j = assigned_to(v.clones(), v.branch)->0 as usize;
    assert(v.clones()[j as int].1.branch == Some(v.branch));
}

/// A checkout after a run of events, and the records as they were last saved on the
/// way.
pub struct RunView {
    pub checkout: CheckoutView,
    pub stored: Option<Entries<Entries<CloneView>>>,
}

/// A checkout after a run of events. The records are saved where a step that asks
/// for it is answered as done.
pub open spec fn played(v: CheckoutView, events: Seq<EventView>) -> RunView
    decreases events.len(),
{
    if events.len() == 0 {
        RunView { checkout: v, stored: None }
    } else {
        let before = played(v, events.drop_last());
        let step = before.checkout.step;
        RunView {
            checkout: before.checkout.next(events.last()),
            stored: if (step is TouchSave || step is StampSave) && events.last() is Done {
                Some(before.checkout.state)
            } else {
                before.stored
            },
        }
    }
}

/// The clone is assigned to the branch.
pub open spec fn has_branch(clones: Entries<CloneView>, branch: Seq<char>, k: int) -> bool {
    clones[k].1.branch == Some(branch)
}

/// Not more than one clone is assigned to the branch.
pub open spec fn at_most_one(clones: Entries<CloneView>, branch: Seq<char>) -> bool {
    forall|a: int, b: int|
        0 <= a < clones.len() && 0 <= b < clones.len() && #[trigger] has_branch(clones, branch, a)
            && #[trigger] has_branch(clones, branch, b) ==> a == b
}

/// The clone at `i` is assigned to the branch, and no other is.
pub open spec fn only_one(clones: Entries<CloneView>, branch: Seq<char>, i: int) -> bool {
    &&& 0 <= i < clones.len()
    &&& forall|k: int|
        0 <= k < clones.len() ==> (#[trigger] has_branch(clones, branch, k) <==> k == i)
}

/// No clone is assigned to the branch.
pub open spec fn no_one(clones: Entries<CloneView>, branch: Seq<char>) -> bool {
    forall|k: int| 0 <= k < clones.len() ==> !#[trigger] has_branch(clones, branch, k)
}

/// The clone is the same but for its branch and the time of its use.
pub open spec fn same_clone(a: (Seq<char>, CloneView), b: (Seq<char>, CloneView)) -> bool {
    b.0 == a.0 && b.1.path == a.1.path && b.1.pinned == a.1.pinned
}

/// The records of `now` differ from those of `then` only in the pool of the
/// checkout, and there only in clones that have, or had, the branch; no clone comes,
/// goes, moves or changes its name or pin.
pub open spec fn rest_untouched(then: CheckoutView, now: CheckoutView) -> bool {
    &&& now.clones().len() == then.clones().len()
    &&& now.state == then.state.update(then.at, (then.state[then.at].0, now.clones()))
    &&& forall|k: int|
        0 <= k < then.clones().len() ==> same_clone(then.clones()[k], #[trigger] now.clones()[k])
            && (has_branch(then.clones(), then.branch, k) || has_branch(
            now.clones(),
            then.branch,
            k,
        ) || now.clones()[k] == then.clones()[k])
}

/// What holds in the course of every run.
spec fn on_course(start: CheckoutView, run: RunView) -> bool {
    let v = run.checkout;
    let fresh = run.stored is None && no_one(v.clones(), v.branch);
    let given = |i: usize| run.stored is None && only_one(v.clones(), v.branch, i as int);
    let saved = |i: usize|
        run.stored == Some(v.state) && only_one(v.clones(), v.branch, i as int);
    &&& v.wf() && sound(v)
    &&& v.at == start.at && v.branch == start.branch
    &&& 0 <= start.at < start.state.len()
    &&& rest_untouched(start, v)
    &&& match v.step {
        Step::ReadBranch(i) => given(i) && has_branch(start.clones(), start.branch, i as int),
        Step::ProbeClean(_) => fresh,
        Step::ProbeConfig { .. } => fresh,
        Step::Git(task, i) => match task {
            Task::Refetch => given(i),
            Task::Repull => given(i),
            Task::Remodule => given(i),
            Task::Modules => saved(i),
            _ => fresh,
        },
        Step::TouchTime(i) => given(i),
        Step::TouchSave(i) => given(i),
        Step::StampTime(_) => fresh,
        Step::StampSave(i) => given(i),
        Step::CopyConfig { to, .. } => saved(to),
        Step::Finish(i) => saved(i),
        Step::Fail(Failure::Git(Task::Modules)) => run.stored == Some(v.state) && exists|i: int|
            #[trigger] only_one(v.clones(), v.branch, i),
        Step::Fail(_) => fresh,
    }
}

proof fn lemma_choosing_on_course(start: CheckoutView, v: CheckoutView)
    requires
        v.go(Step::Fail(Failure::Select(SelectError::NoClones))).wf(),
        v.at == start.at && v.branch == start.branch,
        0 <= start.at < start.state.len(),
        rest_untouched(start, v),
        no_one(v.clones(), v.branch),
    ensures
        on_course(start, RunView { checkout: v.choosing(), stored: None }),
{
    lemma_choosing_sound(v);
    let w = v.choosing();
    assert(w.state == v.state && w.clones() == v.clones());
}

proof fn lemma_stays_on_course(start: CheckoutView, run: RunView, event: EventView)
    requires
        on_course(start, run),
    ensures
        ({
            let v = run.checkout;
            let saves = (v.step is TouchSave || v.step is StampSave) && event is Done;
            on_course(
                start,
                RunView {
                    checkout: v.next(event),
                    stored: if saves {
                        Some(v.state)
                    } else {
                        run.stored
                    },
                },
            )
        }),
{
    let v = run.checkout;
    let w = v.next(event);
    law_checkout_stays_sound(v, event);
    match (v.step, event) {
        (Step::ReadBranch(i), EventView::Branch(b)) => {
            if b != Some(v.branch) {
                let u = v.with_branch(i, b);
                assert forall|k: int| 0 <= k < u.clones().len() implies !#[trigger] has_branch(
                    u.clones(),
                    u.branch,
                    k,
                ) by {
                    assert(has_branch(v.clones(), v.branch, k) <==> k == i);
                }
                lemma_edit(start, v, u, i as int);
                lemma_choosing_on_course(start, u);
            }
        },
        (Step::ProbeClean(i), EventView::Answer(a)) => {
            lemma_choosing_on_course(
                start,
                CheckoutView { clean: v.clean.update(i as int, Some(a)), ..v },
            );
        },
        (Step::TouchTime(i), EventView::Time(t)) => {
            lemma_edit(start, v, w, i as int);
            assert forall|k: int| 0 <= k < w.clones().len() implies (#[trigger] has_branch(
                w.clones(),
                w.branch,
                k,
            ) <==> k == i) by {
                assert(has_branch(v.clones(), v.branch, k) <==> k == i);
            }
        },
        (Step::StampTime(i), EventView::Time(t)) => {
            assert(w.clones() =~= v.clones().update(i as int, w.clones()[i as int]));
            assert(w.state =~= v.state.update(v.at, (v.state[v.at].0, w.clones())));
            lemma_edit(start, v, w, i as int);
            assert forall|k: int| 0 <= k < w.clones().len() implies (#[trigger] has_branch(
                w.clones(),
                w.branch,
                k,
            ) <==> k == i) by {
                assert(!has_branch(v.clones(), v.branch, k));
            }
        },
        (Step::Git(Task::Modules, i), EventView::Answer(ok)) => {
            assert(w.state == v.state && w.clones() == v.clones());
            if !ok {
                assert(only_one(w.clones(), w.branch, i as int));
            }
        },
        _ => {
            assert(w.state == v.state && w.clones() == v.clones());
        },
    }
}

/// A change to the record of a clone that had the branch, or has it then.
proof fn lemma_edit(start: CheckoutView, v: CheckoutView, w: CheckoutView, i: int)
    requires
        v.at == start.at && v.branch == start.branch,
        0 <= start.at < start.state.len(),
        rest_untouched(start, v),
        0 <= i < v.clones().len(),
        w.at == v.at && w.branch == v.branch,
        w.clones() == v.clones().update(i, w.clones()[i]),
        same_clone(v.clones()[i], w.clones()[i]),
        w.state == v.state.update(v.at, (v.state[v.at].0, w.clones())),
        has_branch(v.clones(), v.branch, i) || has_branch(w.clones(), w.branch, i),
        has_branch(v.clones(), v.branch, i) && !has_branch(start.clones(), v.branch, i)
            ==> has_branch(w.clones(), w.branch, i),
    ensures
        rest_untouched(start, w),
{
    assert forall|k: int| 0 <= k < start.clones().len() implies same_clone(
        start.clones()[k],
        #[trigger] w.clones()[k],
    ) && (has_branch(start.clones(), start.branch, k) || has_branch(w.clones(), start.branch, k)
        || w.clones()[k] == start.clones()[k]) by {
        assert(same_clone(start.clones()[k], v.clones()[k]));
        if k != i {
            assert(w.clones()[k] == v.clones()[k]);
        }
    }
    assert(w.state =~= start.state.update(start.at, (start.state[start.at].0, w.clones())));
}

proof fn lemma_run(start: CheckoutView, events: Seq<EventView>)
    requires
        on_course(start, RunView { checkout: start, stored: None }),
    ensures
        on_course(start, played(start, events)),
    decreases events.len(),
{
    if events.len() > 0 {
        lemma_run(start, events.drop_last());
        lemma_stays_on_course(start, played(start, events.drop_last()), events.last());
    }
}

/// What a whole checkout does, whatever happens on the way, where not more than one
/// clone of the pool had the branch before. If it succeeds, the clone that is handed
/// out has the branch, no other clone has it, and the records were saved as they are
/// then. If it fails, nothing was saved, unless it was the submodules that failed:
/// then the records were saved with the branch in them. Clones that neither had the
/// branch nor have it now are recorded as before, and so is every other pool.
pub proof fn law_whole_checkout(
    state: Entries<Entries<CloneView>>,
    pool: Seq<char>,
    branch: Seq<char>,
    submodules: bool,
    pull_request: Option<u64>,
    events: Seq<EventView>,
)
    requires
        clones_of(state, pool).len() <= usize::MAX,
        at_most_one(clones_of(state, pool), branch),
    ensures
        ({
            let start = begun(state, pool, branch, submodules, pull_request);
            let run = played(start, events);
            let v = run.checkout;
            &&& start.state == entered(state, pool) && start.clones() == clones_of(state, pool)
            &&& rest_untouched(start, v)
            &&& match v.step {
                Step::Finish(i) => only_one(v.clones(), branch, i as int) && run.stored == Some(
                    v.state,
                ),
                Step::Fail(Failure::Git(Task::Modules)) => run.stored == Some(v.state) && exists|
                    i: int,
                | #[trigger]
                    only_one(v.clones(), branch, i),
                Step::Fail(_) => run.stored is None,
                _ => true,
            }
        }),
{
    let all = entered(state, pool);
    lemma_place(state, pool);
    lemma_place(all, pool);
    if place(state, pool) is None {
        assert(all[state.len() as int].0 == pool);
        let at = place(all, pool)->0;
        if at < state.len() {
            assert(state[at].0 == pool);
        }
    }
    let start = begun(state, pool, branch, submodules, pull_request);
    law_checkout_begins_sound(state, pool, branch, submodules, pull_request);
    let clones = clones_of(state, pool);
    assert(start.clones() == clones);
    assert(start.state =~= start.state.update(
        start.at,
        (start.state[start.at].0, start.clones()),
    ));
    let p = |e: (Seq<char>, CloneView)| e.1.branch == Some(branch);
    lemma_first_where(clones, p);
    match assigned_to(clones, branch) {
        Some(i) => {
            assert(has_branch(clones, branch, i));
            assert(only_one(clones, branch, i));
            assert(i as usize == i);
        },
        None => {
            assert forall|k: int| 0 <= k < clones.len() implies !#[trigger] has_branch(
                clones,
                branch,
                k,
            ) by {
                assert(!p(clones[k]));
            }
        },
    }
    lemma_run(start, events);
}

/// How many answers are still missing.
pub open spec fn missing(answers: Seq<Option<bool>>) -> nat
    decreases answers.len(),
{
    if answers.len() == 0 {
        0
    } else {
        missing(answers.drop_last()) + if answers.last() is None {
            1nat
        } else {
            0
        }
    }
}

proof fn lemma_missing_update(answers: Seq<Option<bool>>, i: int, a: bool)
    requires
        0 <= i < answers.len(),
        answers[i] is None,
    ensures
        missing(answers.update(i, Some(a))) + 1 == missing(answers),
    decreases answers.len(),
{
    let after = answers.update(i, Some(a));
    if i == answers.len() - 1 {
        assert(after.drop_last() =~= answers.drop_last());
    } else {
        assert(after.drop_last() =~= answers.drop_last().update(i, Some(a)));
        lemma_missing_update(answers.drop_last(), i, a);
    }
}

/// How far a checkout is from its end.
pub open spec fn stage(step: Step) -> nat {
    match step {
        Step::ReadBranch(_) => 12,
        Step::ProbeClean(_) => 11,
        Step::ProbeConfig { .. } => 10,
        Step::Git(task, _) => match task {
            Task::Refetch => 9,
            Task::Repull => 8,
            Task::Remodule => 7,
            Task::Fetch => 9,
            Task::Switch => 8,
            Task::Create => 7,
            Task::Pull => 7,
            Task::Modules => 3,
        },
        Step::TouchTime(_) => 6,
        Step::TouchSave(_) => 5,
        Step::StampTime(_) => 6,
        Step::StampSave(_) => 5,
        Step::CopyConfig { .. } => 2,
        Step::Finish(_) => 0,
        Step::Fail(_) => 0,
    }
}

/// The event answers the step.
pub open spec fn answers(step: Step, event: EventView) -> bool {
    match (step, event) {
        (Step::ReadBranch(_), EventView::Branch(_)) => true,
        (Step::ProbeClean(_), EventView::Answer(_)) => true,
        (Step::ProbeConfig { .. }, EventView::Answer(_)) => true,
        (Step::Git(_, _), EventView::Answer(_)) => true,
        (Step::TouchTime(_), EventView::Time(_)) => true,
        (Step::StampTime(_), EventView::Time(_)) => true,
        (Step::TouchSave(_), EventView::Done) => true,
        (Step::StampSave(_), EventView::Done) => true,
        (Step::CopyConfig { .. }, EventView::Done) => true,
        _ => false,
    }
}

/// Every checkout ends: each answer brings it to a later stage, or leaves fewer
/// questions open at the same one.
pub proof fn law_checkout_ends(v: CheckoutView, event: EventView)
    requires
        v.wf(),
        sound(v),
        answers(v.step, event),
    ensures
        ({
            let w = v.next(event);
            ||| stage(w.step) < stage(v.step)
            ||| stage(w.step) == stage(v.step) && missing(w.clean) < missing(v.clean)
            ||| stage(w.step) == stage(v.step) && w.clean == v.clean && missing(w.configs)
                < missing(v.configs)
        }),
{
    match (v.step, event) {
        (Step::ProbeClean(i), EventView::Answer(a)) => {
            lemma_missing_update(v.clean, i as int, a);
        },
        (Step::ProbeConfig { clone, other }, EventView::Answer(a)) => {
            lemma_missing_update(v.configs, other as int, a);
        },
        _ => {},
    }
}

// ---------------------------------------------------------------------------
// What is done in the course of a checkout
// ---------------------------------------------------------------------------

/// A command that was run: in which clone, in which words, and whether it succeeded.
pub struct Asked {
    pub clone: int,
    pub words: Seq<Seq<char>>,
    pub ok: bool,
}

/// What was done and found out in a run of events.
pub struct History {
    /// The commands that were run, in order.
    pub asked: Seq<Asked>,
    /// The branch that the clone which had the branch was found on, if it was looked.
    pub found: Option<Option<Seq<char>>>,
    /// The time that was told, if it was asked for.
    pub time: Option<Timestamp>,
    /// From which clone configuration was copied to which, if it was.
    pub copied: Option<(int, int)>,
}

/// What was done and found out once a step was answered.
pub open spec fn heard(so_far: History, at: CheckoutView, event: EventView) -> History {
    match (at.step, event) {
        (Step::Git(task, i), EventView::Answer(ok)) => History {
            asked: so_far.asked.push(
                Asked { clone: i as int, words: task_words(task, at.branch, at.pull_request), ok },
            ),
            ..so_far
        },
        (Step::ReadBranch(_), EventView::Branch(b)) => History { found: Some(b), ..so_far },
        (Step::TouchTime(_), EventView::Time(t)) => History { time: Some(t), ..so_far },
        (Step::StampTime(_), EventView::Time(t)) => History { time: Some(t), ..so_far },
        (Step::CopyConfig { from, to }, EventView::Done) => History {
            copied: Some((from as int, to as int)),
            ..so_far
        },
        _ => so_far,
    }
}

/// What was done and found out in a run of events: each event answers the step that the
/// checkout was at.
pub open spec fn history(v: CheckoutView, events: Seq<EventView>) -> History
    decreases events.len(),
{
    if events.len() == 0 {
        History { asked: Seq::empty(), found: None, time: None, copied: None }
    } else {
        heard(
            history(v, events.drop_last()),
            played(v, events.drop_last()).checkout,
            events.last(),
        )
    }
}

/// These commands were run in this clone, and no other.
pub open spec fn ran(asked: Seq<Asked>, clone: int, words: Seq<Seq<Seq<char>>>) -> bool {
    &&& asked.len() == words.len()
    &&& forall|k: int|
        0 <= k < asked.len() ==> (#[trigger] asked[k]).clone == clone && asked[k].words == words[k]
}

proof fn lemma_ran(asked: Seq<Asked>, clone: int, words: Seq<Seq<Seq<char>>>, next: Asked)
    requires
        ran(asked, clone, words),
        next.clone == clone,
    ensures
        ran(asked.push(next), clone, words.push(next.words)),
{
}

/// The words of every command, whatever the branch and the pull request are.
pub proof fn law_task_words(branch: Seq<char>, number: u64)
    ensures
        forall|task: Task, pull_request: Option<u64>|
            #![trigger task_words(task, branch, pull_request)]
            {
                let words = task_words(task, branch, pull_request);
                &&& task == Task::Refetch ==> words == seq!["fetch"@, "origin"@]
                &&& task == Task::Repull ==> words == seq!["pull"@, "--ff-only"@]
                &&& task == Task::Remodule ==> words == seq![
                    "submodule"@,
                    "update"@,
                    "--init"@,
                    "--recursive"@,
                ]
                &&& task == Task::Fetch && pull_request is None ==> words == seq![
                    "fetch"@,
                    "origin"@,
                ]
                &&& task == Task::Switch ==> words == seq!["checkout"@, branch]
                &&& task == Task::Create ==> words == seq![
                    "checkout"@,
                    "-b"@,
                    branch,
                    "origin/"@ + branch,
                ]
                &&& task == Task::Pull ==> words == seq!["pull"@, "--ff-only"@]
                &&& task == Task::Modules ==> words == seq![
                    "submodule"@,
                    "update"@,
                    "--init"@,
                    "--recursive"@,
                ]
            },
        task_words(Task::Fetch, branch, Some(number)) == seq![
            "fetch"@,
            "origin"@,
            "refs/pull/"@ + decimal_of(number as nat) + "/head:pr/"@ + decimal_of(number as nat),
        ],
        pull_request_branch(number) == "pr/"@ + decimal_of(number as nat),
{
    reveal_strlit("/head:pr/");
    reveal_strlit("/head:");
    reveal_strlit("pr/");
    let n = decimal_of(number as nat);
    assert("/head:"@ + "pr/"@ =~= "/head:pr/"@);
    assert(pull_request_ref(number) =~= "refs/pull/"@ + n + "/head:pr/"@ + n);
}

/// How a checkout begins: at the first clone that is assigned to the branch, if there is
/// one, whose branch is then read, but for a pull request; else with the search for a
/// clone.
pub proof fn law_checkout_begins(
    state: Entries<Entries<CloneView>>,
    pool: Seq<char>,
    branch: Seq<char>,
    submodules: bool,
    pull_request: Option<u64>,
    j: usize,
)
    requires
        clones_of(state, pool).len() <= usize::MAX,
    ensures
        ({
            let clones = clones_of(state, pool);
            let start = begun(state, pool, branch, submodules, pull_request);
            let first = j < clones.len() && clones[j as int].1.branch == Some(branch) && forall|
                k: int,
            |
                0 <= k < j ==> (#[trigger] clones[k]).1.branch != Some(branch);
            &&& start.clones() == clones
            &&& start.branch == branch && start.submodules == submodules && start.pull_request
                == pull_request
            &&& start.step == Step::ReadBranch(j) <==> pull_request is None && first
            &&& start.step == Step::TouchTime(j) <==> pull_request is Some && first
            &&& clones.len() == 0 ==> start.step == Step::Fail(
                Failure::Select(SelectError::NoClones),
            )
            &&& start.clean.len() == clones.len() && start.configs.len() == clones.len()
            &&& forall|k: int|
                0 <= k < clones.len() ==> (#[trigger] start.clean[k]) is None && start.configs[k]
                    is None
        }),
{
    lemma_begun_clones(state, pool, branch, submodules, pull_request);
    let clones = clones_of(state, pool);
    let p = |e: (Seq<char>, CloneView)| e.1.branch == Some(branch);
    lemma_first_where(clones, p);
    if j < clones.len() && clones[j as int].1.branch == Some(branch) && forall|k: int|
        0 <= k < j ==> (#[trigger] clones[k]).1.branch != Some(branch) {
        assert forall|k: int| 0 <= k < j implies !p(#[trigger] clones[k]) by {}
        lemma_is_first(clones, p, j as int);
        assert(assigned_to(clones, branch) == Some(j as int));
    }
    match assigned_to(clones, branch) {
        Some(i) => {
            assert(p(clones[i]));
            assert forall|k: int| 0 <= k < i implies (#[trigger] clones[k]).1.branch != Some(
                branch,
            ) by {
                assert(!p(clones[k]));
            }
            assert(i as usize == i);
        },
        None => {
            assert forall|k: int| 0 <= k < clones.len() implies (#[trigger] clones[k]).1.branch
                != Some(branch) by {
                assert(!p(clones[k]));
            }
        },
    }
}

proof fn lemma_begun_clones(
    state: Entries<Entries<CloneView>>,
    pool: Seq<char>,
    branch: Seq<char>,
    submodules: bool,
    pull_request: Option<u64>,
)
    ensures
        ({
            let start = begun(state, pool, branch, submodules, pull_request);
            &&& start.clones() == clones_of(state, pool)
            &&& start.branch == branch && start.submodules == submodules && start.pull_request
                == pull_request
        }),
{
    let all = entered(state, pool);
    lemma_place(state, pool);
    lemma_place(all, pool);
    if place(state, pool) is None {
        assert(all[state.len() as int].0 == pool);
        let at = place(all, pool)->0;
        if at < state.len() {
            assert(state[at].0 == pool);
        }
    }
}

/// The commands that give the branch to the clone at `i` were run, up to submodules.
spec fn given_by(v: CheckoutView, asked: Seq<Asked>, i: int, more: Seq<Seq<Seq<char>>>) -> bool {
    let fetch = task_words(Task::Fetch, v.branch, v.pull_request);
    let switch = task_words(Task::Switch, v.branch, v.pull_request);
    let create = task_words(Task::Create, v.branch, v.pull_request);
    let pull = task_words(Task::Pull, v.branch, v.pull_request);
    &&& asked.len() >= 2 && asked[0].ok
    &&& match v.pull_request {
        Some(_) => ran(asked, i, seq![fetch, switch] + more) && asked[1].ok,
        None => {
            ||| ran(asked, i, seq![fetch, switch, pull] + more) && asked[1].ok
            ||| ran(asked, i, seq![fetch, switch, create] + more) && !asked[1].ok && asked[2].ok
        },
    }
}

/// The clone at `i` had the branch before, and is handed out again; only the time of its
/// use may be recorded anew.
spec fn again(start: CheckoutView, v: CheckoutView, h: History, i: usize) -> bool {
    let was = start.clones()[i as int];
    &&& i < start.clones().len()
    &&& v.clones() == start.clones().update(
        i as int,
        (was.0, CloneView { last_used: v.clones()[i as int].1.last_used, ..was.1 }),
    )
    &&& if v.pull_request is None {
        h.found == Some(Some(v.branch)) && start.step == Step::ReadBranch(i)
    } else {
        h.found is None && start.step == Step::TouchTime(i)
    }
}

/// No clone was found to have the branch.
spec fn searched(start: CheckoutView, v: CheckoutView, h: History) -> bool {
    if v.pull_request is None {
        h.found != Some(Some(v.branch)) && (start.step is ReadBranch ==> h.found is Some)
    } else {
        h.found is None && !(start.step is TouchTime)
    }
}

/// No clone was found to have the branch, and this one was chosen to be given it.
spec fn giving(start: CheckoutView, v: CheckoutView, h: History, i: usize) -> bool {
    &&& searched(start, v, h)
    &&& v.clean[i as int] == Some(true)
    &&& !(source_search(v.clones(), v.clones()[i as int].1.path, v.configs) is Look)
}

/// The commands were run that refresh a clone which had the branch.
spec fn refreshed(v: CheckoutView, asked: Seq<Asked>, i: int) -> bool {
    let refetch = task_words(Task::Refetch, v.branch, v.pull_request);
    let repull = task_words(Task::Repull, v.branch, v.pull_request);
    let remodules = task_words(Task::Remodule, v.branch, v.pull_request);
    if v.pull_request is Some {
        ran(asked, i, Seq::empty())
    } else if v.submodules {
        ran(asked, i, seq![refetch, repull, remodules])
    } else {
        ran(asked, i, seq![refetch, repull])
    }
}

/// The commands were run that give a clone the branch.
spec fn given_all(v: CheckoutView, asked: Seq<Asked>, i: int) -> bool {
    let modules = task_words(Task::Modules, v.branch, v.pull_request);
    if v.submodules {
        given_by(v, asked, i, seq![modules]) && asked.last().ok
    } else {
        given_by(v, asked, i, Seq::empty())
    }
}

/// What was done by the time that a checkout is at its step.
spec fn on_record(start: CheckoutView, v: CheckoutView, h: History) -> bool {
    let none = Seq::<Seq<Seq<char>>>::empty();
    let fetch = task_words(Task::Fetch, v.branch, v.pull_request);
    let refetch = task_words(Task::Refetch, v.branch, v.pull_request);
    let repull = task_words(Task::Repull, v.branch, v.pull_request);
    let switch = task_words(Task::Switch, v.branch, v.pull_request);
    let untold = h.time is None && h.copied is None;
    let told = |i: usize| h.time == Some(v.clones()[i as int].1.last_used);
    let source = |i: usize| source_search(v.clones(), v.clones()[i as int].1.path, v.configs);
    &&& v.wf() && sound(v)
    &&& v.branch == start.branch && v.submodules == start.submodules && v.pull_request
        == start.pull_request
    &&& match v.step {
        Step::ReadBranch(_) => untold && h.asked.len() == 0 && h.found is None && v == start
            && v.pull_request is None,
        Step::ProbeClean(_) => untold && h.asked.len() == 0 && searched(start, v, h),
        Step::ProbeConfig { .. } => untold && h.asked.len() == 0 && searched(start, v, h),
        Step::Git(task, i) => match task {
            Task::Refetch => untold && v.pull_request is None && again(start, v, h, i) && ran(
                h.asked,
                i as int,
                none,
            ),
            Task::Repull => untold && v.pull_request is None && again(start, v, h, i) && ran(
                h.asked,
                i as int,
                seq![refetch],
            ),
            Task::Remodule => untold && v.pull_request is None && again(start, v, h, i)
                && v.submodules && ran(h.asked, i as int, seq![refetch, repull]),
            Task::Fetch => untold && giving(start, v, h, i) && ran(h.asked, i as int, none),
            Task::Switch => untold && giving(start, v, h, i) && ran(
                h.asked,
                i as int,
                seq![fetch],
            ) && h.asked[0].ok,
            Task::Create => untold && giving(start, v, h, i) && v.pull_request is None && ran(
                h.asked,
                i as int,
                seq![fetch, switch],
            ) && h.asked[0].ok && !h.asked[1].ok,
            Task::Pull => untold && giving(start, v, h, i) && v.pull_request is None && ran(
                h.asked,
                i as int,
                seq![fetch, switch],
            ) && h.asked[0].ok && h.asked[1].ok,
            Task::Modules => told(i) && h.copied is None && giving(start, v, h, i) && v.submodules
                && given_by(v, h.asked, i as int, none),
        },
        Step::TouchTime(i) => untold && again(start, v, h, i) && refreshed(v, h.asked, i as int),
        Step::TouchSave(i) => told(i) && h.copied is None && again(start, v, h, i) && refreshed(
            v,
            h.asked,
            i as int,
        ),
        Step::StampTime(i) => untold && giving(start, v, h, i) && given_by(
            v,
            h.asked,
            i as int,
            none,
        ),
        Step::StampSave(i) => told(i) && h.copied is None && giving(start, v, h, i) && given_by(
            v,
            h.asked,
            i as int,
            none,
        ),
        Step::CopyConfig { from, to } => told(to) && h.copied is None && giving(start, v, h, to)
            && given_all(v, h.asked, to as int) && source(to) == SourceSearch::Use(from),
        Step::Finish(i) => {
            ||| told(i) && h.copied is None && again(start, v, h, i) && refreshed(
                v,
                h.asked,
                i as int,
            )
            ||| {
                &&& told(i) && giving(start, v, h, i) && given_all(v, h.asked, i as int)
                &&& match h.copied {
                    Some((from, to)) => to == i && 0 <= from <= usize::MAX && source(i)
                        == SourceSearch::Use(from as usize),
                    None => source(i) == SourceSearch::Nowhere,
                }
            }
        },
        Step::Fail(Failure::Git(task)) => {
            &&& h.asked.len() > 0 && !h.asked.last().ok
            &&& h.asked.last().words == task_words(task, v.branch, v.pull_request)
            &&& task == Task::Fetch || task == Task::Create || task == Task::Modules || (task
                == Task::Switch && v.pull_request is Some)
        },
        Step::Fail(Failure::Select(e)) => {
            &&& untold && h.asked.len() == 0 && searched(start, v, h)
            &&& e == SelectError::NoClones ==> v.clones().len() == 0
            &&& e == SelectError::AllDirty ==> v.clones().len() > 0 && forall|k: int|
                0 <= k < v.clones().len() ==> #[trigger] v.clean[k] == Some(false)
        },
    }
}

/// Where configuration is looked for depends on the clones only by their paths.
proof fn lemma_same_source(
    a: Entries<CloneView>,
    b: Entries<CloneView>,
    exclude: Seq<char>,
    configs: Seq<Option<bool>>,
)
    requires
        a.len() == b.len(),
        forall|k: int| 0 <= k < a.len() ==> (#[trigger] a[k]).1.path == b[k].1.path,
    ensures
        source_search(a, exclude, configs) == source_search(b, exclude, configs),
{
    let all = Seq::new(a.len(), |k: int| k);
    let p = |k: int| crate::devconfig::may_serve(a, exclude, configs, k);
    let q = |k: int| crate::devconfig::may_serve(b, exclude, configs, k);
    assert(Seq::new(b.len(), |k: int| k) =~= all);
    assert forall|k: int| 0 <= k < all.len() implies p(#[trigger] all[k]) == q(all[k]) by {
        assert(a[k].1.path == b[k].1.path);
    }
    lemma_first_where(all, p);
    match first_where(all, p) {
        Some(i) => {
            lemma_is_first(all, q, i);
        },
        None => {
            lemma_no_first(all, q);
        },
    }
}

proof fn lemma_seeking_on_record(start: CheckoutView, v: CheckoutView, h: History, i: usize)
    requires
        v.go(Step::Finish(i)).wf(),
        next_in_line(v.clones(), v.clean, i as int),
        v.clean[i as int] == Some(true),
        v.branch == start.branch && v.submodules == start.submodules && v.pull_request
            == start.pull_request,
        h.asked.len() == 0 && h.time is None && h.copied is None,
        searched(start, v, h),
    ensures
        on_record(start, v.seeking(i), h),
{
    lemma_seeking_sound(v, i);
}

proof fn lemma_choosing_on_record(start: CheckoutView, v: CheckoutView, h: History)
    requires
        v.go(Step::Fail(Failure::Select(SelectError::NoClones))).wf(),
        v.branch == start.branch && v.submodules == start.submodules && v.pull_request
            == start.pull_request,
        h.asked.len() == 0 && h.time is None && h.copied is None,
        searched(start, v, h),
    ensures
        on_record(start, v.choosing(), h),
{
    lemma_choosing_sound(v);
    match selection(v.clones(), v.clean) {
        Ok(Selection::Take(k)) => {
            let i = choose|i: int| next_in_line(v.clones(), v.clean, i);
            assert(next_in_line(v.clones(), v.clean, i));
            assert(i as usize == i);
            lemma_seeking_on_record(start, v, h, k);
        },
        Ok(Selection::Probe(_)) => {},
        Err(SelectError::NoClones) => {},
        Err(SelectError::AllDirty) => {
            assert forall|k: int| 0 <= k < v.clones().len() implies #[trigger] v.clean[k] == Some(
                false,
            ) by {
                if v.clean[k] != Some(false) {
                    crate::selection::lemma_some_next(v.clones(), v.clean, k);
                }
            }
        },
    }
}

proof fn lemma_git_on_record(
    start: CheckoutView,
    v: CheckoutView,
    h: History,
    task: Task,
    i: usize,
    ok: bool,
)
    requires
        on_record(start, v, h),
        v.step == Step::Git(task, i),
    ensures
        on_record(
            start,
            v.next(EventView::Answer(ok)),
            heard(h, v, EventView::Answer(ok)),
        ),
{
    let event = EventView::Answer(ok);
    let w = v.next(event);
    let g = heard(h, v, event);
    law_checkout_stays_sound(v, event);
    lemma_source_known(v, i);
    let none = Seq::<Seq<Seq<char>>>::empty();
    let fetch = task_words(Task::Fetch, v.branch, v.pull_request);
    let refetch = task_words(Task::Refetch, v.branch, v.pull_request);
    let repull = task_words(Task::Repull, v.branch, v.pull_request);
    let remodules = task_words(Task::Remodule, v.branch, v.pull_request);
    let switch = task_words(Task::Switch, v.branch, v.pull_request);
    let create = task_words(Task::Create, v.branch, v.pull_request);
    let pull = task_words(Task::Pull, v.branch, v.pull_request);
    let modules = task_words(Task::Modules, v.branch, v.pull_request);
    let next = Asked { clone: i as int, words: task_words(task, v.branch, v.pull_request), ok };
    assert(w.state == v.state && w.clones() == v.clones());
    assert(g.asked == h.asked.push(next));
    match task {
        Task::Refetch => {
            assert(none.push(refetch) =~= seq![refetch]);
            lemma_ran(h.asked, i as int, none, next);
        },
        Task::Repull => {
            assert(seq![refetch].push(repull) =~= seq![refetch, repull]);
            lemma_ran(h.asked, i as int, seq![refetch], next);
        },
        Task::Remodule => {
            assert(seq![refetch, repull].push(remodules) =~= seq![refetch, repull, remodules]);
            lemma_ran(h.asked, i as int, seq![refetch, repull], next);
        },
        Task::Fetch => {
            assert(none.push(fetch) =~= seq![fetch]);
            lemma_ran(h.asked, i as int, none, next);
        },
        Task::Switch => {
            assert(seq![fetch].push(switch) =~= seq![fetch, switch]);
            assert(seq![fetch, switch] + none =~= seq![fetch, switch]);
            lemma_ran(h.asked, i as int, seq![fetch], next);
        },
        Task::Create => {
            assert(seq![fetch, switch].push(create) =~= seq![fetch, switch, create] + none);
            lemma_ran(h.asked, i as int, seq![fetch, switch], next);
        },
        Task::Pull => {
            assert(seq![fetch, switch].push(pull) =~= seq![fetch, switch, pull] + none);
            lemma_ran(h.asked, i as int, seq![fetch, switch], next);
        },
        Task::Modules => {
            assert((seq![fetch, switch] + none).push(modules) =~= seq![fetch, switch]
                + seq![modules]);
            assert((seq![fetch, switch, pull] + none).push(modules) =~= seq![fetch, switch, pull]
                + seq![modules]);
            assert((seq![fetch, switch, create] + none).push(modules) =~= seq![
                fetch,
                switch,
                create,
            ] + seq![modules]);
            match v.pull_request {
                Some(_) => {
                    lemma_ran(h.asked, i as int, seq![fetch, switch] + none, next);
                },
                None => {
                    if h.asked[1].ok {
                        lemma_ran(h.asked, i as int, seq![fetch, switch, pull] + none, next);
                    } else {
                        lemma_ran(h.asked, i as int, seq![fetch, switch, create] + none, next);
                    }
                },
            }
        },
    }
}

proof fn lemma_stays_on_record(start: CheckoutView, v: CheckoutView, h: History, event: EventView)
    requires
        on_record(start, v, h),
    ensures
        on_record(start, v.next(event), heard(h, v, event)),
{
    let w = v.next(event);
    let g = heard(h, v, event);
    law_checkout_stays_sound(v, event);
    match (v.step, event) {
        (Step::ReadBranch(i), EventView::Branch(b)) => {
            if b == Some(v.branch) {
                assert(v.clones() =~= start.clones().update(
                    i as int,
                    (
                        start.clones()[i as int].0,
                        CloneView {
                            last_used: v.clones()[i as int].1.last_used,
                            ..start.clones()[i as int].1
                        },
                    ),
                ));
            } else {
                lemma_choosing_on_record(start, v.with_branch(i, b), g);
            }
        },
        (Step::ProbeClean(i), EventView::Answer(a)) => {
            lemma_choosing_on_record(
                start,
                CheckoutView { clean: v.clean.update(i as int, Some(a)), ..v },
                g,
            );
        },
        (Step::ProbeConfig { clone, other }, EventView::Answer(a)) => {
            lemma_seeking_on_record(
                start,
                CheckoutView { configs: v.configs.update(other as int, Some(a)), ..v },
                g,
                clone,
            );
        },
        (Step::Git(task, i), EventView::Answer(ok)) => {
            lemma_git_on_record(start, v, h, task, i, ok);
        },
        (Step::TouchTime(i), EventView::Time(t)) => {
            assert(w.clones() =~= start.clones().update(
                i as int,
                (
                    start.clones()[i as int].0,
                    CloneView {
                        last_used: w.clones()[i as int].1.last_used,
                        ..start.clones()[i as int].1
                    },
                ),
            ));
        },
        (Step::StampTime(i), EventView::Time(t)) => {
            lemma_same_source(
                v.clones(),
                w.clones(),
                v.clones()[i as int].1.path,
                v.configs,
            );
        },
        (Step::StampSave(i), EventView::Done) => {
            lemma_source_known(v, i);
        },
        _ => {},
    }
}

proof fn lemma_on_record(start: CheckoutView, events: Seq<EventView>)
    requires
        on_record(
            start,
            start,
            History { asked: Seq::empty(), found: None, time: None, copied: None },
        ),
    ensures
        on_record(start, played(start, events).checkout, history(start, events)),
    decreases events.len(),
{
    if events.len() > 0 {
        let before = events.drop_last();
        lemma_on_record(start, before);
        lemma_stays_on_record(
            start,
            played(start, before).checkout,
            history(start, before),
            events.last(),
        );
    }
}

proof fn lemma_begins_on_record(
    state: Entries<Entries<CloneView>>,
    pool: Seq<char>,
    branch: Seq<char>,
    submodules: bool,
    pull_request: Option<u64>,
)
    requires
        clones_of(state, pool).len() <= usize::MAX,
    ensures
        ({
            let start = begun(state, pool, branch, submodules, pull_request);
            on_record(
                start,
                start,
                History { asked: Seq::empty(), found: None, time: None, copied: None },
            )
        }),
{
    let h = History { asked: Seq::<Asked>::empty(), found: None, time: None, copied: None };
    let start = begun(state, pool, branch, submodules, pull_request);
    law_checkout_begins_sound(state, pool, branch, submodules, pull_request);
    lemma_begun_clones(state, pool, branch, submodules, pull_request);
    let clones = clones_of(state, pool);
    lemma_first_where(clones, |e: (Seq<char>, CloneView)| e.1.branch == Some(branch));
    match assigned_to(clones, branch) {
        Some(i) => {
            assert(i as usize == i);
            assert(start.clones() =~= start.clones().update(
                i,
                (
                    start.clones()[i].0,
                    CloneView {
                        last_used: start.clones()[i].1.last_used,
                        ..start.clones()[i].1
                    },
                ),
            ));
        },
        None => {
            lemma_choosing_on_record(start, start.go(Step::Fail(Failure::Select(SelectError::NoClones))), h);
        },
    }
}

/// What is run in a checkout that is done. Every command was run in the clone that is
/// handed out, and the time that was told is the time of its use.
///
/// A branch that the clone was found on already: what is new was fetched, and then
/// pulled by fast-forward only. A branch that it was given: what is new was fetched; the
/// branch was checked out and then pulled by fast-forward only, or, where it could not be
/// checked out, it was created to follow the remote one. Submodules were updated last,
/// if they are to be. Of a pull request, its head was fetched into a branch of its own,
/// which was checked out; where a clone had it before, nothing was run.
pub proof fn law_what_was_run(
    state: Entries<Entries<CloneView>>,
    pool: Seq<char>,
    branch: Seq<char>,
    submodules: bool,
    pull_request: Option<u64>,
    events: Seq<EventView>,
    i: usize,
)
    requires
        clones_of(state, pool).len() <= usize::MAX,
        played(
            begun(state, pool, branch, submodules, pull_request),
            events,
        ).checkout.step == Step::Finish(i),
    ensures
        ({
            let start = begun(state, pool, branch, submodules, pull_request);
            let v = played(start, events).checkout;
            let h = history(start, events);
            let run = h.asked;
            let modules = seq!["submodule"@, "update"@, "--init"@, "--recursive"@];
            let extra: int = if submodules {
                1
            } else {
                0
            };
            &&& i < v.clones().len()
            &&& h.time == Some(v.clones()[i as int].1.last_used)
            &&& forall|k: int| 0 <= k < run.len() ==> (#[trigger] run[k]).clone == i
            &&& match pull_request {
                None => if h.found == Some(Some(branch)) {
                    &&& start.step == Step::ReadBranch(i)
                    &&& run.len() == 2 + extra
                    &&& run[0].words == seq!["fetch"@, "origin"@]
                    &&& run[1].words == seq!["pull"@, "--ff-only"@]
                    &&& submodules ==> run[2].words == modules
                } else {
                    &&& start.step is ReadBranch ==> h.found is Some
                    &&& v.clean[i as int] == Some(true)
                    &&& run.len() == 3 + extra
                    &&& run[0].words == seq!["fetch"@, "origin"@] && run[0].ok
                    &&& run[1].words == seq!["checkout"@, branch]
                    &&& run[1].ok ==> run[2].words == seq!["pull"@, "--ff-only"@]
                    &&& !run[1].ok ==> run[2].words == seq![
                        "checkout"@,
                        "-b"@,
                        branch,
                        "origin/"@ + branch,
                    ] && run[2].ok
                    &&& submodules ==> run[3].words == modules && run[3].ok
                },
                Some(number) => {
                    let digits = decimal_of(number as nat);
                    if start.step is TouchTime {
                        start.step == Step::TouchTime(i) && run.len() == 0
                    } else {
                        &&& v.clean[i as int] == Some(true)
                        &&& run.len() == 2 + extra
                        &&& run[0].words == seq![
                            "fetch"@,
                            "origin"@,
                            "refs/pull/"@ + digits + "/head:pr/"@ + digits,
                        ] && run[0].ok
                        &&& run[1].words == seq!["checkout"@, branch] && run[1].ok
                        &&& submodules ==> run[2].words == modules && run[2].ok
                    }
                },
            }
        }),
{
    let start = begun(state, pool, branch, submodules, pull_request);
    lemma_begun_clones(state, pool, branch, submodules, pull_request);
    lemma_begins_on_record(state, pool, branch, submodules, pull_request);
    lemma_on_record(start, events);
    lemma_what_was_run(start, played(start, events).checkout, history(start, events), i);
}

/// What was run in a checkout that is done, as it is on record.
#[verifier::spinoff_prover]
#[verifier::rlimit(40)]
proof fn lemma_what_was_run(start: CheckoutView, v: CheckoutView, h: History, i: usize)
    requires
        on_record(start, v, h),
        v.step == Step::Finish(i),
    ensures
        ({
            let (branch, submodules, pull_request) = (v.branch, v.submodules, v.pull_request);
            let run = h.asked;
            let modules = seq!["submodule"@, "update"@, "--init"@, "--recursive"@];
            let extra: int = if submodules {
                1
            } else {
                0
            };
            &&& i < v.clones().len()
            &&& h.time == Some(v.clones()[i as int].1.last_used)
            &&& forall|k: int| 0 <= k < run.len() ==> (#[trigger] run[k]).clone == i
            &&& match pull_request {
                None => if h.found == Some(Some(branch)) {
                    &&& start.step == Step::ReadBranch(i)
                    &&& run.len() == 2 + extra
                    &&& run[0].words == seq!["fetch"@, "origin"@]
                    &&& run[1].words == seq!["pull"@, "--ff-only"@]
                    &&& submodules ==> run[2].words == modules
                } else {
                    &&& start.step is ReadBranch ==> h.found is Some
                    &&& v.clean[i as int] == Some(true)
                    &&& run.len() == 3 + extra
                    &&& run[0].words == seq!["fetch"@, "origin"@] && run[0].ok
                    &&& run[1].words == seq!["checkout"@, branch]
                    &&& run[1].ok ==> run[2].words == seq!["pull"@, "--ff-only"@]
                    &&& !run[1].ok ==> run[2].words == seq![
                        "checkout"@,
                        "-b"@,
                        branch,
                        "origin/"@ + branch,
                    ] && run[2].ok
                    &&& submodules ==> run[3].words == modules && run[3].ok
                },
                Some(number) => {
                    let digits = decimal_of(number as nat);
                    if start.step is TouchTime {
                        start.step == Step::TouchTime(i) && run.len() == 0
                    } else {
                        &&& v.clean[i as int] == Some(true)
                        &&& run.len() == 2 + extra
                        &&& run[0].words == seq![
                            "fetch"@,
                            "origin"@,
                            "refs/pull/"@ + digits + "/head:pr/"@ + digits,
                        ] && run[0].ok
                        &&& run[1].words == seq!["checkout"@, branch] && run[1].ok
                        &&& submodules ==> run[2].words == modules && run[2].ok
                    }
                },
            }
        }),
{
    law_task_words(
        v.branch,
        match v.pull_request {
            Some(n) => n,
            None => 0,
        },
    );
}

/// In a checkout of a branch that is done in a clone which had the branch already, or
/// could check it out, the last command but for submodules is a pull by fast-forward
/// only, and every fetch comes before it.
pub proof fn law_pulled_after_fetch(
    state: Entries<Entries<CloneView>>,
    pool: Seq<char>,
    branch: Seq<char>,
    submodules: bool,
    events: Seq<EventView>,
    i: usize,
)
    requires
        clones_of(state, pool).len() <= usize::MAX,
        played(begun(state, pool, branch, submodules, None), events).checkout.step == Step::Finish(
            i,
        ),
        ({
            let h = history(begun(state, pool, branch, submodules, None), events);
            h.found == Some(Some(branch)) || forall|k: int|
                0 <= k < h.asked.len() ==> (#[trigger] h.asked[k]).ok
        }),
    ensures
        ({
            let run = history(begun(state, pool, branch, submodules, None), events).asked;
            let at = if submodules {
                run.len() - 2
            } else {
                run.len() - 1
            };
            &&& 0 < at
            &&& run[at].clone == i && run[at].words == seq!["pull"@, "--ff-only"@]
            &&& run[0].clone == i && run[0].words == seq!["fetch"@, "origin"@]
            &&& forall|k: int|
                0 < k < run.len() ==> (#[trigger] run[k]).words != seq!["fetch"@, "origin"@]
        }),
{
    law_what_was_run(state, pool, branch, submodules, None, events, i);
    let h = history(begun(state, pool, branch, submodules, None), events);
    lemma_fetch_is_first(h.asked, branch, submodules, h.found == Some(Some(branch)));
}

proof fn lemma_fetch_is_first(run: Seq<Asked>, branch: Seq<char>, submodules: bool, found: bool)
    requires
        ({
            let modules = seq!["submodule"@, "update"@, "--init"@, "--recursive"@];
            let pulled: int = if found {
                1
            } else {
                2
            };
            &&& run.len() == pulled + if submodules {
                2int
            } else {
                1
            }
            &&& run[pulled].words == seq!["pull"@, "--ff-only"@]
            &&& !found ==> run[1].words == seq!["checkout"@, branch]
            &&& submodules ==> run[pulled + 1].words == modules
        }),
    ensures
        forall|k: int|
            0 < k < run.len() ==> (#[trigger] run[k]).words != seq!["fetch"@, "origin"@],
{
    reveal_strlit("fetch");
    reveal_strlit("pull");
    reveal_strlit("checkout");
    reveal_strlit("submodule");
    assert("pull"@[0] == 'p' && "checkout"@[0] == 'c' && "submodule"@[0] == 's' && "fetch"@[0]
        == 'f');
    assert(seq!["fetch"@, "origin"@][0] == "fetch"@);
    assert forall|k: int| 0 < k < run.len() implies (#[trigger] run[k]).words != seq![
        "fetch"@,
        "origin"@,
    ] by {
        assert(run[k].words[0] != "fetch"@);
    }
}

/// What a checkout changes in the records of a clone that had the branch: only the time
/// of its use. No other record changes.
pub proof fn law_reuse_changes_only_time(
    state: Entries<Entries<CloneView>>,
    pool: Seq<char>,
    branch: Seq<char>,
    submodules: bool,
    pull_request: Option<u64>,
    events: Seq<EventView>,
    i: usize,
    k: int,
)
    requires
        clones_of(state, pool).len() <= usize::MAX,
        ({
            let start = begun(state, pool, branch, submodules, pull_request);
            &&& played(start, events).checkout.step == Step::Finish(i)
            &&& start.step is TouchTime || history(start, events).found == Some(Some(branch))
        }),
        0 <= k < clones_of(state, pool).len(),
    ensures
        ({
            let start = begun(state, pool, branch, submodules, pull_request);
            let v = played(start, events).checkout;
            let was = clones_of(state, pool);
            let now = v.clones();
            &&& now.len() == was.len()
            &&& k != i ==> now[k] == was[k]
            &&& now[k].0 == was[k].0 && now[k].1.path == was[k].1.path && now[k].1.branch
                == was[k].1.branch && now[k].1.pinned == was[k].1.pinned
            &&& history(start, events).copied is None
        }),
{
    let start = begun(state, pool, branch, submodules, pull_request);
    lemma_begun_clones(state, pool, branch, submodules, pull_request);
    lemma_begins_on_record(state, pool, branch, submodules, pull_request);
    lemma_on_record(start, events);
    law_checkout_begins(state, pool, branch, submodules, pull_request, i);
}

/// A clone that is given a branch is handed the configuration of the first other clone
/// that was found to have some. Nothing is copied only where every other clone was found
/// to have none. A clone is another if its path is another.
pub proof fn law_config_is_handed_on(
    state: Entries<Entries<CloneView>>,
    pool: Seq<char>,
    branch: Seq<char>,
    submodules: bool,
    pull_request: Option<u64>,
    events: Seq<EventView>,
    i: usize,
    k: int,
)
    requires
        clones_of(state, pool).len() <= usize::MAX,
        ({
            let start = begun(state, pool, branch, submodules, pull_request);
            &&& played(start, events).checkout.step == Step::Finish(i)
            &&& !(start.step is TouchTime)
            &&& history(start, events).found != Some(Some(branch))
        }),
        0 <= k < clones_of(state, pool).len(),
    ensures
        ({
            let start = begun(state, pool, branch, submodules, pull_request);
            let v = played(start, events).checkout;
            let own = |j: int| same_path(v.clones()[j].1.path, v.clones()[i as int].1.path);
            match history(start, events).copied {
                Some((from, to)) => {
                    &&& to == i && 0 <= from < v.clones().len()
                    &&& !own(from) && v.configs[from] == Some(true)
                    &&& k < from ==> own(k) || v.configs[k] == Some(false)
                },
                None => own(k) || v.configs[k] == Some(false),
            }
        }),
{
    let start = begun(state, pool, branch, submodules, pull_request);
    lemma_begun_clones(state, pool, branch, submodules, pull_request);
    lemma_begins_on_record(state, pool, branch, submodules, pull_request);
    lemma_on_record(start, events);
    lemma_keeps_length(start, events);
    law_checkout_begins(state, pool, branch, submodules, pull_request, i);
    let v = played(start, events).checkout;
    let clones = v.clones();
    let exclude = clones[i as int].1.path;
    let all = Seq::new(clones.len(), |j: int| j);
    let p = |j: int| crate::devconfig::may_serve(clones, exclude, v.configs, j);
    lemma_first_where(all, p);
    lemma_source_known(v, i);
    assert(all[k] == k);
    if let Some(j) = first_where(all, p) {
        assert(all[j] == j);
        assert(j as usize == j);
    }
}

proof fn lemma_keeps_length(start: CheckoutView, events: Seq<EventView>)
    requires
        on_record(
            start,
            start,
            History { asked: Seq::empty(), found: None, time: None, copied: None },
        ),
    ensures
        played(start, events).checkout.clones().len() == start.clones().len(),
    decreases events.len(),
{
    if events.len() > 0 {
        let before = events.drop_last();
        lemma_keeps_length(start, before);
        lemma_on_record(start, before);
        let v = played(start, before).checkout;
        let w = v.next(events.last());
        if v.clones().len() > 0 {
            law_step_changes_one_record(v, events.last(), 0);
        } else {
            assert(w.clones() == v.clones());
        }
    }
}

/// Why a checkout fails. Where no clone can be had, nothing was run: there is none, or
/// every one was found not to be clean. Else the last command that was run failed, and it
/// was not one that may: to fetch what is to be checked out, to create the branch, to
/// check a pull request out, or to update submodules in a clone that was given the branch.
/// What is run in a clone that had the branch already fails no checkout.
pub proof fn law_why_checkout_fails(
    state: Entries<Entries<CloneView>>,
    pool: Seq<char>,
    branch: Seq<char>,
    submodules: bool,
    pull_request: Option<u64>,
    events: Seq<EventView>,
    failure: Failure,
)
    requires
        clones_of(state, pool).len() <= usize::MAX,
        played(
            begun(state, pool, branch, submodules, pull_request),
            events,
        ).checkout.step == Step::Fail(failure),
    ensures
        ({
            let start = begun(state, pool, branch, submodules, pull_request);
            let v = played(start, events).checkout;
            let h = history(start, events);
            let last = h.asked.last();
            &&& failure is Select ==> h.asked.len() == 0 && h.copied is None
            &&& failure == Failure::Select(SelectError::NoClones) <==> clones_of(
                state,
                pool,
            ).len() == 0
            &&& failure == Failure::Select(SelectError::AllDirty) ==> forall|k: int|
                0 <= k < v.clones().len() ==> #[trigger] v.clean[k] == Some(false)
            &&& failure is Git ==> h.asked.len() > 0 && !last.ok
            &&& failure matches Failure::Git(task) ==> match task {
                Task::Fetch => pull_request is None ==> last.words == seq!["fetch"@, "origin"@],
                Task::Switch => pull_request is Some && last.words == seq!["checkout"@, branch],
                Task::Create => last.words == seq![
                    "checkout"@,
                    "-b"@,
                    branch,
                    "origin/"@ + branch,
                ],
                Task::Modules => last.words == seq![
                    "submodule"@,
                    "update"@,
                    "--init"@,
                    "--recursive"@,
                ],
                _ => false,
            }
        }),
{
    let start = begun(state, pool, branch, submodules, pull_request);
    lemma_begun_clones(state, pool, branch, submodules, pull_request);
    lemma_begins_on_record(state, pool, branch, submodules, pull_request);
    lemma_on_record(start, events);
    lemma_keeps_length(start, events);
    law_checkout_begins(state, pool, branch, submodules, pull_request, 0);
    law_task_words(branch, 0);
    if clones_of(state, pool).len() == 0 {
        lemma_failed_stays(start, events);
    }
}

proof fn lemma_failed_stays(start: CheckoutView, events: Seq<EventView>)
    requires
        start.step is Fail,
    ensures
        played(start, events).checkout == start,
    decreases events.len(),
{
    if events.len() > 0 {
        lemma_failed_stays(start, events.drop_last());
    }
}

/// What is found out of a clone is known from then on, as it was answered, and of that
/// clone only.
pub proof fn law_answers_are_kept(v: CheckoutView, event: EventView)
    requires
        v.wf(),
    ensures
        ({
            let w = v.next(event);
            &&& match (v.step, event) {
                (Step::ProbeClean(i), EventView::Answer(a)) => w.clean == v.clean.update(
                    i as int,
                    Some(a),
                ) && w.configs == v.configs,
                (Step::ProbeConfig { other, .. }, EventView::Answer(a)) => w.configs
                    == v.configs.update(other as int, Some(a)) && w.clean == v.clean,
                _ => w.clean == v.clean && w.configs == v.configs,
            }
        }),
{
}

/// What the user is told before a step.
pub proof fn law_announced_words(v: CheckoutView, i: usize, j: usize)
    ensures
        announced(v.go(Step::Git(Task::Refetch, i))) == seq!["Pulling latest..."@],
        announced(v.go(Step::Git(Task::Repull, i))) == Seq::<Seq<char>>::empty(),
        announced(v.go(Step::Git(Task::Remodule, i))) == seq!["Updating submodules..."@],
        announced(v.go(Step::Git(Task::Modules, i))) == seq!["Updating submodules..."@],
        announced(v.go(Step::Git(Task::Create, i))) == Seq::<Seq<char>>::empty(),
        announced(v.go(Step::Git(Task::Pull, i))) == Seq::<Seq<char>>::empty(),
        v.pull_request is None ==> {
            &&& announced(v.go(Step::Git(Task::Fetch, i))) == seq![
                "Using clone: "@ + v.clones()[i as int].0,
                "Fetching..."@,
            ]
            &&& announced(v.go(Step::Git(Task::Switch, i))) == seq![
                "Checking out "@ + v.branch + "..."@,
            ]
            &&& announced(v.go(Step::TouchTime(i))) == Seq::<Seq<char>>::empty()
        },
        v.pull_request matches Some(n) ==> {
            &&& announced(v.go(Step::Git(Task::Fetch, i))) == seq![
                "Using clone: "@ + v.clones()[i as int].0,
                "Fetching PR #"@ + decimal_of(n as nat) + "..."@,
            ]
            &&& announced(v.go(Step::Git(Task::Switch, i))) == Seq::<Seq<char>>::empty()
            &&& announced(v.go(Step::TouchTime(i))) == seq![
                "PR #"@ + decimal_of(n as nat) + " already on clone: "@ + v.clones()[i as int].0,
            ]
        },
        announced(v.go(Step::CopyConfig { from: j, to: i })) == seq![
            "Copying dev configs from "@ + v.clones()[j as int].1.path + "..."@,
        ],
        announced(v.go(Step::ReadBranch(i))) == Seq::<Seq<char>>::empty(),
        announced(v.go(Step::ProbeClean(i))) == Seq::<Seq<char>>::empty(),
        announced(v.go(Step::ProbeConfig { clone: i, other: j })) == Seq::<Seq<char>>::empty(),
        announced(v.go(Step::TouchSave(i))) == Seq::<Seq<char>>::empty(),
        announced(v.go(Step::StampTime(i))) == Seq::<Seq<char>>::empty(),
        announced(v.go(Step::StampSave(i))) == Seq::<Seq<char>>::empty(),
        announced(v.go(Step::Finish(i))) == Seq::<Seq<char>>::empty(),
{
    assert(v.go(Step::Finish(i)).clones() == v.clones());
}

/// What the user is told of a branch, a command that may fail, and a clone that cannot be
/// had.
pub proof fn law_remarks(v: CheckoutView, i: int, actual: Seq<char>, why: Seq<char>)
    ensures
        branch_remark(v, i, Some(v.branch)) == "Branch '"@ + v.branch + "' already on clone: "@
            + v.clones()[i].0,
        actual != v.branch ==> branch_remark(v, i, Some(actual)) == "Clone '"@ + v.clones()[i].0
            + "' was recorded as '"@ + v.branch + "' but is actually on '"@ + actual
            + "'. Correcting state."@,
        branch_remark(v, i, None) == "Clone '"@ + v.clones()[i].0 + "' was recorded as '"@ + v.branch
            + "' but is actually on '"@ + "unknown"@ + "'. Correcting state."@,
        warning_text(Task::Refetch, why) == Some("Warning: fetch failed: "@ + why),
        warning_text(Task::Repull, why) == Some("Warning: pull failed: "@ + why),
        warning_text(Task::Remodule, why) == Some("Warning: submodule update failed: "@ + why),
        warning_text(Task::Fetch, why) is None,
        warning_text(Task::Switch, why) is None,
        warning_text(Task::Create, why) is None,
        warning_text(Task::Pull, why) is None,
        warning_text(Task::Modules, why) is None,
{
}

} // verus!
