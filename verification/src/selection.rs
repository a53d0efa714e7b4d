//! Which clone of a pool is handed out next.

use vstd::prelude::*;

use crate::model::{before, is_before, CloneView, PoolState};
use crate::table::Entries;

verus! {

/// The clone at `i` is tried before the clone at `j`: unassigned clones before
/// assigned ones, then unpinned before pinned ones, then the least recently used,
/// then as they are listed.
pub open spec fn sooner(clones: Entries<CloneView>, i: int, j: int) -> bool {
    let a = clones[i].1;
    let b = clones[j].1;
    if (a.branch is Some) != (b.branch is Some) {
        b.branch is Some
    } else if a.pinned != b.pinned {
        b.pinned
    } else if a.last_used != b.last_used {
        before(a.last_used, b.last_used)
    } else {
        i < j
    }
}

/// Whether the clone at `i` is tried before the clone at `j`.
pub fn is_sooner(pool: &PoolState, i: usize, j: usize) -> (r: bool)
    requires
        i < pool@.len(),
        j < pool@.len(),
    ensures
        r == sooner(pool@, i as int, j as int),
{
    let a = pool.clones.value(i);
    let b = pool.clones.value(j);
    if a.assigned_branch.is_some() != b.assigned_branch.is_some() {
        b.assigned_branch.is_some()
    } else if a.pinned != b.pinned {
        b.pinned
    } else if a.last_used.seconds != b.last_used.seconds || a.last_used.nanos
        != b.last_used.nanos {
        is_before(a.last_used, b.last_used)
    } else {
        i < j
    }
}

/// The order in which clones are tried is strict and total.
pub proof fn law_trial_order(clones: Entries<CloneView>, i: int, j: int, k: int)
    ensures
        !(sooner(clones, i, j) && sooner(clones, j, i)),
        i != j ==> sooner(clones, i, j) || sooner(clones, j, i),
        sooner(clones, i, j) && sooner(clones, j, k) ==> sooner(clones, i, k),
{
}

/// What to do next to find a clone.
#[derive(Clone, Copy, Debug, PartialEq, Eq, Structural)]
pub enum Selection {
    /// Find out whether this clone is clean.
    Probe(usize),
    /// Take this clone: it is clean.
    Take(usize),
}

/// Why no clone can be had.
#[derive(Clone, Copy, Debug, PartialEq, Eq, Structural)]
pub enum SelectError {
    /// The pool has no clones.
    NoClones,
    /// No clone is clean.
    AllDirty,
}

/// The clone at `i` is the one to try: of those that are not known to be dirty, it
/// comes first. `answers` tells of each clone whether it is clean, as far as that
/// was found out.
pub open spec fn next_in_line(
    clones: Entries<CloneView>,
    answers: Seq<Option<bool>>,
    i: int,
) -> bool {
    &&& 0 <= i < clones.len()
    &&& answers[i] != Some(false)
    &&& forall|j: int|
        0 <= j < clones.len() && j != i && #[trigger] answers[j] != Some(false) ==> sooner(
            clones,
            i,
            j,
        )
}

/// What to do next, or why there is nothing to be done.
pub open spec fn selection(clones: Entries<CloneView>, answers: Seq<Option<bool>>) -> Result<
    Selection,
    SelectError,
> {
    if clones.len() == 0 {
        Err(SelectError::NoClones)
    } else if exists|i: int| next_in_line(clones, answers, i) {
        let i = choose|i: int| next_in_line(clones, answers, i);
        if answers[i] == Some(true) {
            Ok(Selection::Take(i as usize))
        } else {
            Ok(Selection::Probe(i as usize))
        }
    } else {
        Err(SelectError::AllDirty)
    }
}

/// Only one clone is next in line.
pub proof fn lemma_one_next(
    clones: Entries<CloneView>,
    answers: Seq<Option<bool>>,
    i: int,
    j: int,
)
    requires
        next_in_line(clones, answers, i),
        next_in_line(clones, answers, j),
    ensures
        i == j,
{
    if i != j {
        assert(sooner(clones, i, j) && sooner(clones, j, i));
        law_trial_order(clones, i, j, j);
    }
}

/// Finds a clean clone, unassigned if possible, else the least recently used:
/// says which clone to look at next, given what is known of each, or which to
/// take. A clone that cannot be read counts as dirty.
pub fn select_clean_clone(pool: &PoolState, answers: &Vec<Option<bool>>) -> (r: Result<
    Selection,
    SelectError,
>)
    requires
        answers@.len() == pool@.len(),
    ensures
        r == selection(pool@, answers@),
        r matches Ok(Selection::Take(i)) ==> next_in_line(pool@, answers@, i as int)
            && answers@[i as int] == Some(true),
        r matches Ok(Selection::Probe(i)) ==> next_in_line(pool@, answers@, i as int)
            && answers@[i as int] is None,
        r == Err::<Selection, SelectError>(SelectError::NoClones) <==> pool@.len() == 0,
        r == Err::<Selection, SelectError>(SelectError::AllDirty) <==> pool@.len() > 0 && forall|
            i: int,
        |
            0 <= i < pool@.len() ==> #[trigger] answers@[i] == Some(false),
{
    let n = pool.clones.len();
    if n == 0 {
        return Err(SelectError::NoClones);
    }
    let mut best: Option<usize> = None;
    for i in 0..n
        invariant
            n == pool@.len(),
            answers@.len() == n,
            best is None ==> forall|j: int|
                0 <= j < i ==> #[trigger] answers@[j] == Some(false),
            best matches Some(b) ==> b < i && answers@[b as int] != Some(false) && forall|j: int|
                0 <= j < i && j != b && #[trigger] answers@[j] != Some(false) ==> sooner(
                    pool@,
                    b as int,
                    j,
                ),
    {
        let dirty = match answers[i] {
            Some(clean) => !clean,
            None => false,
        };
        if !dirty {
            match best {
                Some(b) => {
                    if is_sooner(pool, i, b) {
                        assert forall|j: int|
                            0 <= j < i + 1 && j != i && #[trigger] answers@[j] != Some(
                                false,
                            ) implies sooner(pool@, i as int, j) by {
                            law_trial_order(pool@, i as int, b as int, j);
                        }
                        best = Some(i);
                    } else {
                        proof {
                            law_trial_order(pool@, i as int, b as int, b as int);
                        }
                    }
                },
                None => {
                    best = Some(i);
                },
            }
        }
    }
    match best {
        Some(b) => {
            proof {
                assert(next_in_line(pool@, answers@, b as int));
                let c = choose|i: int| next_in_line(pool@, answers@, i);
                lemma_one_next(pool@, answers@, b as int, c);
                assert(c as usize == b);
            }
            match answers[b] {
                Some(clean) => {
                    assert(clean);
                    Ok(Selection::Take(b))
                },
                None => Ok(Selection::Probe(b)),
            }
        },
        None => {
            assert(forall|i: int| !next_in_line(pool@, answers@, i));
            Err(SelectError::AllDirty)
        },
    }
}

impl SelectError {
    /// What the user is told.
    pub open spec fn text(self) -> Seq<char> {
        match self {
            SelectError::NoClones => "No clones in pool. Run 'rpool new' first."@,
            SelectError::AllDirty =>
                "All clones have uncommitted changes. Commit or stash changes in at least one clone."@,
        }
    }

    /// What the user is told.
    pub fn message(&self) -> (r: String)
        ensures
            r@ == self.text(),
    {
        match self {
            SelectError::NoClones => "No clones in pool. Run 'rpool new' first.".to_owned(),
            SelectError::AllDirty =>
                "All clones have uncommitted changes. Commit or stash changes in at least one clone.".to_owned(),
        }
    }
}

/// The answers agree with which clones really are clean.
pub open spec fn truthful(answers: Seq<Option<bool>>, clean: Seq<bool>) -> bool {
    answers.len() == clean.len() && forall|i: int|
        0 <= i < answers.len() ==> (#[trigger] answers[i] matches Some(a) ==> a == clean[i])
}

/// The clone that is taken is clean, and of all clean clones it is the one to be
/// tried first, whatever was found out on the way. So an unassigned clean clone is
/// taken if there is one; of the clean clones an unpinned one before a pinned one
/// of the same kind; and where those do not tell, the least recently used.
pub proof fn law_taken_is_best(
    clones: Entries<CloneView>,
    answers: Seq<Option<bool>>,
    clean: Seq<bool>,
    taken: usize,
    other: int,
)
    requires
        answers.len() == clones.len(),
        truthful(answers, clean),
        selection(clones, answers) == Ok::<Selection, SelectError>(Selection::Take(taken)),
        clones.len() <= usize::MAX,
    ensures
        taken < clones.len(),
        clean[taken as int],
        0 <= other < clones.len() && clean[other] && other != taken ==> {
            let a = clones[taken as int].1;
            let b = clones[other].1;
            &&& sooner(clones, taken as int, other)
            &&& a.branch is Some ==> b.branch is Some
            &&& (a.branch is Some) == (b.branch is Some) && a.pinned ==> b.pinned
            &&& (a.branch is Some) == (b.branch is Some) && a.pinned == b.pinned ==> !before(
                b.last_used,
                a.last_used,
            )
        },
{
    let i = choose|i: int| next_in_line(clones, answers, i);
    assert(next_in_line(clones, answers, i));
    assert(i == taken);
    assert(answers[i] == Some(true));
    if 0 <= other < clones.len() && clean[other] && other != taken {
        assert(answers[other] != Some(false));
    }
}

/// A clean clone is found whenever there is one: the search gives up only where no
/// clone is clean.
pub proof fn law_gives_up_only_if_all_dirty(
    clones: Entries<CloneView>,
    answers: Seq<Option<bool>>,
    clean: Seq<bool>,
)
    requires
        answers.len() == clones.len(),
        truthful(answers, clean),
        selection(clones, answers) == Err::<Selection, SelectError>(SelectError::AllDirty),
    ensures
        forall|i: int| 0 <= i < clean.len() ==> !#[trigger] clean[i],
{
    assert forall|i: int| 0 <= i < clean.len() implies !#[trigger] clean[i] by {
        if clean[i] {
            assert(answers[i] != Some(false));
            lemma_some_next(clones, answers, i);
        }
    }
}

/// Of the clones that are not known to be dirty, one is next in line.
pub proof fn lemma_some_next(clones: Entries<CloneView>, answers: Seq<Option<bool>>, i: int)
    requires
        answers.len() == clones.len(),
        0 <= i < clones.len(),
        answers[i] != Some(false),
    ensures
        exists|k: int| next_in_line(clones, answers, k),
{
    lemma_some_next_below(clones, answers, i, clones.len() as int);
    let k = choose|k: int|
        {
            &&& 0 <= k < clones.len() && answers[k] != Some(false)
            &&& forall|j: int|
                0 <= j < clones.len() && j != k && #[trigger] answers[j] != Some(false) ==> sooner(
                    clones,
                    k,
                    j,
                )
        };
    assert(next_in_line(clones, answers, k));
}

proof fn lemma_some_next_below(
    clones: Entries<CloneView>,
    answers: Seq<Option<bool>>,
    i: int,
    n: int,
)
    requires
        answers.len() == clones.len(),
        0 <= i < n <= clones.len(),
        answers[i] != Some(false),
    ensures
        exists|k: int|
            {
                &&& 0 <= k < n && #[trigger] answers[k] != Some(false)
                &&& forall|j: int|
                    0 <= j < n && j != k && #[trigger] answers[j] != Some(false) ==> sooner(
                        clones,
                        k,
                        j,
                    )
            },
    decreases n,
{
    let last = n - 1;
    if forall|j: int| 0 <= j < last ==> #[trigger] answers[j] == Some(false) {
        assert(answers[last] != Some(false));
    } else {
        let m = choose|m: int| 0 <= m < last && #[trigger] answers[m] != Some(false);
        lemma_some_next_below(clones, answers, m, last);
        let k = choose|k: int|
            {
                &&& 0 <= k < last && #[trigger] answers[k] != Some(false)
                &&& forall|j: int|
                    0 <= j < last && j != k && #[trigger] answers[j] != Some(false) ==> sooner(
                        clones,
                        k,
                        j,
                    )
            };
        if answers[last] != Some(false) && sooner(clones, last, k) {
            assert forall|j: int|
                0 <= j < n && j != last && #[trigger] answers[j] != Some(false) implies sooner(
                clones,
                last,
                j,
            ) by {
                law_trial_order(clones, last, k, j);
            }
        } else {
            law_trial_order(clones, last, k, k);
            assert(answers[k] != Some(false));
        }
    }
}

/// The order in which clones are tried, told by what is recorded of them: one that has no
/// branch comes before one that has one; of two alike in that, one that is not pinned
/// before one that is; of two alike in both, the one used longer ago; and of two used at
/// the same time, the one that is listed first.
pub proof fn law_trial_keys(clones: Entries<CloneView>, i: int, j: int)
    ensures
        ({
            let a = clones[i].1;
            let b = clones[j].1;
            let pins = a.pinned == b.pinned;
            let branches = (a.branch is None) == (b.branch is None);
            &&& a.branch is None && b.branch is Some ==> sooner(clones, i, j) && !sooner(
                clones,
                j,
                i,
            )
            &&& branches && !a.pinned && b.pinned ==> sooner(clones, i, j) && !sooner(clones, j, i)
            &&& branches && pins && a.last_used.seconds < b.last_used.seconds ==> sooner(
                clones,
                i,
                j,
            ) && !sooner(clones, j, i)
            &&& branches && pins && a.last_used.seconds == b.last_used.seconds && a.last_used.nanos
                < b.last_used.nanos ==> sooner(clones, i, j) && !sooner(clones, j, i)
            &&& branches && pins && a.last_used == b.last_used ==> (sooner(clones, i, j) <==> i < j)
        }),
{
}

/// What the user is told where no clone can be had.
pub proof fn law_select_words()
    ensures
        SelectError::NoClones.text() == "No clones in pool. Run 'rpool new' first."@,
        SelectError::AllDirty.text()
            == "All clones have uncommitted changes. Commit or stash changes in at least one clone."@,
{
}

} // verus!
