//! How the pools and their clones stand, as the user is shown it.

use vstd::prelude::*;
use vstd::relations::{sorted_by, total_ordering};

use crate::doctor::examined;
use crate::model::{
    before, is_before, pool_dir, pool_place, CloneState, CloneView, Config, ConfigView, PoolState,
    State,
};
use crate::table::{holds, lemma_place, place, Entries};
use crate::text::{opt_str, opt_text, same_text, texts};
use crate::path::join;
use crate::text::ends_with;

verus! {

// ---------------------------------------------------------------------------
// The order in which clones are shown
// ---------------------------------------------------------------------------

/// Clone `a` is shown no later than clone `b`: it was used later, or they were used
/// at the same time and it is listed no later.
pub open spec fn shown_first(clones: Entries<CloneView>, a: int, b: int) -> bool {
    let ta = clones[a].1.last_used;
    let tb = clones[b].1.last_used;
    before(tb, ta) || (ta == tb && a <= b)
}

/// The clones in the order in which they are shown: the one used last comes first.
pub open spec fn shown_order(clones: Entries<CloneView>) -> Seq<int> {
    Seq::new(clones.len(), |i: int| i).sort_by(|a: int, b: int| shown_first(clones, a, b))
}

proof fn lemma_shown_first(clones: Entries<CloneView>)
    ensures
        total_ordering(|a: int, b: int| shown_first(clones, a, b)),
{
}

/// Positions as numbers.
pub open spec fn ints(v: Seq<usize>) -> Seq<int> {
    v.map_values(|i: usize| i as int)
}

fn is_shown_first(pool: &PoolState, a: usize, b: usize) -> (r: bool)
    requires
        a < pool@.len(),
        b < pool@.len(),
    ensures
        r == shown_first(pool@, a as int, b as int),
{
    let ta = pool.clones.value(a).last_used;
    let tb = pool.clones.value(b).last_used;
    is_before(tb, ta) || (ta.seconds == tb.seconds && ta.nanos == tb.nanos && a <= b)
}

/// The clones in the order in which they are shown.
pub fn display_order(pool: &PoolState) -> (r: Vec<usize>)
    ensures
        ints(r@) == shown_order(pool@),
        forall|k: int| 0 <= k < r@.len() ==> (#[trigger] r@[k]) < pool@.len(),
{
    let ghost leq = |a: int, b: int| shown_first(pool@, a, b);
    let mut r: Vec<usize> = Vec::new();
    let n = pool.clones.len();
    assert(Seq::new(0, |i: int| i) =~= Seq::<int>::empty());
    assert(ints(r@) =~= Seq::<int>::empty());
    for i in 0..n
        invariant
            n == pool@.len(),
            leq == (|a: int, b: int| shown_first(pool@, a, b)),
            r@.len() == i,
            forall|k: int| 0 <= k < r@.len() ==> (#[trigger] r@[k]) < i,
            sorted_by(ints(r@), leq),
            ints(r@).to_multiset() == Seq::new(i as nat, |k: int| k).to_multiset(),
    {
        let mut at: usize = 0;
        while at < r.len() && is_shown_first(pool, r[at], i)
            invariant
                n == pool@.len(),
                i < n,
                at <= r@.len(),
                leq == (|a: int, b: int| shown_first(pool@, a, b)),
                forall|k: int| 0 <= k < r@.len() ==> (#[trigger] r@[k]) < i,
                forall|k: int| 0 <= k < at ==> leq(#[trigger] ints(r@)[k], i as int),
            decreases r@.len() - at,
        {
            at = at + 1;
        }
        let ghost was = r@;
        proof {
            lemma_shown_first(pool@);
            if at < was.len() {
                assert(!leq(ints(was)[at as int], i as int));
                assert(leq(i as int, ints(was)[at as int]));
                assert forall|k: int| at <= k < was.len() implies leq(
                    i as int,
                    #[trigger] ints(was)[k],
                ) by {
                    if k > at {
                        assert(leq(ints(was)[at as int], ints(was)[k]));
                    }
                }
            }
        }
        r.insert(at, i);
        proof {
            assert(ints(r@) =~= ints(was).insert(at as int, i as int));
            vstd::seq_lib::to_multiset_insert(ints(was), at as int, i as int);
            let upto = Seq::new(i as nat, |k: int| k);
            assert(Seq::new((i + 1) as nat, |k: int| k) =~= upto.push(i as int));
            vstd::seq_lib::to_multiset_build(upto, i as int);
            assert forall|a: int, b: int| 0 <= a < b < ints(r@).len() implies #[trigger] leq(
                ints(r@)[a],
                ints(r@)[b],
            ) by {
                let now = ints(r@);
                let old_now = ints(was);
                if a < at && b < at {
                    assert(leq(old_now[a], old_now[b]));
                } else if a < at && b == at {
                    assert(leq(old_now[a], i as int));
                } else if a < at && b > at {
                    assert(leq(old_now[a], old_now[b - 1]));
                } else if a == at {
                    assert(leq(i as int, old_now[b - 1]));
                } else {
                    assert(leq(old_now[a - 1], old_now[b - 1]));
                }
            }
            assert forall|k: int| 0 <= k < r@.len() implies (#[trigger] r@[k]) < i + 1 by {
                if k < at {
                    assert(r@[k] == was[k]);
                } else if k > at {
                    assert(r@[k] == was[k - 1]);
                }
            }
        }
    }
    proof {
        let all = Seq::new(pool@.len(), |k: int| k);
        lemma_shown_first(pool@);
        all.lemma_sort_by_ensures(leq);
        vstd::seq_lib::lemma_sorted_unique(ints(r@), all.sort_by(leq), leq);
    }
    r
}

/// Every clone is shown once, and one that was used later is shown before one that
/// was used earlier.
pub proof fn law_shown_order(clones: Entries<CloneView>, a: int, b: int)
    requires
        0 <= a < b < clones.len(),
    ensures
        shown_order(clones).len() == clones.len(),
        shown_order(clones).to_multiset() == Seq::new(clones.len(), |i: int| i).to_multiset(),
        shown_first(clones, shown_order(clones)[a], shown_order(clones)[b]),
{
    let leq = |x: int, y: int| shown_first(clones, x, y);
    let all = Seq::new(clones.len(), |i: int| i);
    lemma_shown_first(clones);
    all.lemma_sort_by_ensures(leq);
    vstd::seq_lib::to_multiset_len(all);
    vstd::seq_lib::to_multiset_len(all.sort_by(leq));
    assert(leq(shown_order(clones)[a], shown_order(clones)[b]));
}

// ---------------------------------------------------------------------------
// What is shown
// ---------------------------------------------------------------------------

/// What was found of a clone.
pub struct StatusFacts {
    /// The branch that it is on, if that can be told.
    pub branch: Option<String>,
    /// Whether it has uncommitted changes, if that can be told.
    pub dirty: Option<bool>,
}

/// What [`StatusFacts`] say.
pub struct StatusFactsView {
    pub branch: Option<Seq<char>>,
    pub dirty: Option<bool>,
}

impl View for StatusFacts {
    type V = StatusFactsView;

    open spec fn view(&self) -> StatusFactsView {
        StatusFactsView { branch: opt_text(self.branch), dirty: self.dirty }
    }
}

/// What was found of the clones of a pool.
pub open spec fn status_facts(v: Seq<StatusFacts>) -> Seq<StatusFactsView> {
    v.map_values(|f: StatusFacts| f@)
}

/// The branch that a clone is shown with: the one it is assigned to, and the one it
/// is on where that is another.
pub open spec fn branch_text(assigned: Option<Seq<char>>, actual: Option<Seq<char>>) -> Seq<char> {
    match assigned {
        None => "(unassigned)"@,
        Some(b) => match actual {
            Some(a) => if a != b {
                b + " (actual: "@ + a + ")"@
            } else {
                b
            },
            None => b,
        },
    }
}

/// How a clone is shown.
pub open spec fn clone_line(
    name: Seq<char>,
    clone: CloneView,
    facts: StatusFactsView,
) -> Seq<char> {
    "  "@ + name + " -> "@ + branch_text(clone.branch, facts.branch) + (if clone.pinned {
        " [pinned]"@
    } else {
        ""@
    }) + (match facts.dirty {
        Some(true) => " [dirty]"@,
        Some(false) => ""@,
        None => " [error reading clone]"@,
    })
}

/// How the clones of a pool are shown.
pub open spec fn clone_lines(clones: Entries<CloneView>, facts: Seq<StatusFactsView>) -> Seq<
    Seq<char>,
> {
    shown_order(clones).map_values(|i: int| clone_line(clones[i].0, clones[i].1, facts[i]))
}

/// How a pool is shown, with what is recorded of it and found of its clones.
pub open spec fn pool_status(
    config: ConfigView,
    name: Seq<char>,
    known: Option<(Entries<CloneView>, Seq<StatusFactsView>)>,
) -> Seq<Seq<char>> {
    let heading = seq!["Pool: "@ + name + " ("@ + pool_place(config, name) + ")"@];
    let body = match known {
        Some((clones, facts)) => if clones.len() == 0 {
            seq!["  No clones"@]
        } else {
            clone_lines(clones, facts)
        },
        None => seq!["  No state"@],
    };
    heading + body + seq![""@]
}

/// How the first `n` pools are shown, or of them only the one that was asked for.
pub open spec fn status_lines(
    config: ConfigView,
    state: Entries<Entries<CloneView>>,
    facts: Seq<Vec<StatusFacts>>,
    only: Option<Seq<char>>,
    n: int,
) -> Seq<Seq<char>>
    decreases n,
{
    if n <= 0 {
        Seq::empty()
    } else {
        let rest = status_lines(config, state, facts, only, n - 1);
        let name = config.pools[n - 1].0;
        if only is None || only == Some(name) {
            let known = match place(state, name) {
                Some(p) => Some((state[p].1, status_facts(facts[p]@))),
                None => None,
            };
            rest + pool_status(config, name, known)
        } else {
            rest
        }
    }
}

fn branch_display(assigned: &Option<String>, actual: &Option<String>) -> (r: String)
    ensures
        r@ == branch_text(opt_text(*assigned), opt_text(*actual)),
{
    match assigned {
        None => "(unassigned)".to_owned(),
        Some(b) => match actual {
            Some(a) => {
                let mut r = b.clone();
                if !same_text(a.as_str(), b.as_str()) {
                    r.append(" (actual: ");
                    r.append(a.as_str());
                    r.append(")");
                }
                r
            },
            None => b.clone(),
        },
    }
}

fn clone_display(name: &str, clone: &CloneState, facts: &StatusFacts) -> (r: String)
    ensures
        r@ == clone_line(name@, clone@, facts@),
        facts.dirty == Some(true) ==> ends_with(r@, " [dirty]"@),
        facts.dirty is None ==> ends_with(r@, " [error reading clone]"@),
{
    let mut r = "  ".to_owned();
    r.append(name);
    r.append(" -> ");
    r.append(branch_display(&clone.assigned_branch, &facts.branch).as_str());
    r.append(
        if clone.pinned {
            " [pinned]"
        } else {
            ""
        },
    );
    r.append(
        match facts.dirty {
            Some(true) => " [dirty]",
            Some(false) => "",
            None => " [error reading clone]",
        },
    );
    proof {
        let dirt = " [dirty]"@;
        let error = " [error reading clone]"@;
        if facts.dirty == Some(true) {
            assert(r@.skip(r@.len() - dirt.len()) =~= dirt);
        }
        if facts.dirty is None {
            assert(r@.skip(r@.len() - error.len()) =~= error);
        }
    }
    r
}

fn show_clones(pool: &PoolState, facts: &Vec<StatusFacts>, lines: &mut Vec<String>)
    requires
        facts@.len() == pool@.len(),
    ensures
        texts(final(lines)@) == texts(old(lines)@) + clone_lines(pool@, status_facts(facts@)),
{
    let ghost was = texts(lines@);
    let ghost fs = status_facts(facts@);
    let ghost want = clone_lines(pool@, fs);
    let order = display_order(pool);
    let ghost shown = shown_order(pool@);
    assert(want.take(0) =~= Seq::empty());
    assert(was + want.take(0) =~= was);
    assert(ints(order@).len() == order@.len());
    for k in 0..order.len()
        invariant
            fs == status_facts(facts@),
            facts@.len() == pool@.len(),
            shown == shown_order(pool@),
            ints(order@) == shown,
            order@.len() == shown.len(),
            want == clone_lines(pool@, fs),
            forall|k: int| 0 <= k < order@.len() ==> (#[trigger] order@[k]) < pool@.len(),
            texts(lines@) == was + want.take(k as int),
    {
        let i = order[k];
        assert(ints(order@)[k as int] == i as int);
        assert(fs[i as int] == facts@[i as int]@);
        let ghost before = lines@;
        let line = clone_display(
            pool.clones.name(i).as_str(),
            pool.clones.value(i),
            &facts[i],
        );
        assert(line@ == want[k as int]);
        lines.push(line);
        assert(texts(lines@) =~= texts(before).push(want[k as int]));
        assert(want.take(k + 1) =~= want.take(k as int).push(want[k as int]));
    }
    assert(want.take(want.len() as int) =~= want);
}

/// There are facts of every clone that is shown.
pub open spec fn status_known(
    config: ConfigView,
    state: Entries<Entries<CloneView>>,
    facts: Seq<Vec<StatusFacts>>,
    only: Option<Seq<char>>,
) -> bool {
    &&& facts.len() == state.len()
    &&& forall|p: int|
        0 <= p < state.len() && examined(config, only, #[trigger] state[p].0) ==> facts[p]@.len()
            == state[p].1.len()
}

/// How the pools stand.
pub enum Status {
    /// There is no pool to show.
    NoPools,
    /// The pool that was asked for is not set up.
    UnknownPool,
    /// What is shown, line by line.
    Lines(Vec<String>),
}

/// Shows all pools that are set up, or the one that was asked for.
pub fn status(
    config: &Config,
    state: &State,
    facts: &Vec<Vec<StatusFacts>>,
    only: Option<&str>,
) -> (r: Status)
    requires
        status_known(config@, state@, facts@, opt_str(only)),
    ensures
        r is NoPools == (config@.pools.len() == 0),
        r is UnknownPool == (config@.pools.len() > 0 && only is Some && !holds(
            config@.pools,
            only->0@,
        )),
        r matches Status::Lines(lines) ==> texts(lines@) == status_lines(
            config@,
            state@,
            facts@,
            opt_str(only),
            config@.pools.len() as int,
        ),
{
    if config.pools.is_empty() {
        return Status::NoPools;
    }
    if let Some(name) = only {
        if !config.pools.contains(name) {
            return Status::UnknownPool;
        }
    }
    let ghost on = opt_str(only);
    let mut lines: Vec<String> = Vec::new();
    assert(texts(lines@) =~= Seq::empty());
    let n = config.pools.len();
    for i in 0..n
        invariant
            n == config@.pools.len(),
            on == opt_str(only),
            status_known(config@, state@, facts@, on),
            texts(lines@) == status_lines(config@, state@, facts@, on, i as int),
    {
        let name = config.pools.name(i).as_str();
        let wanted = match only {
            Some(one) => same_text(one, name),
            None => true,
        };
        if wanted {
            let ghost rest = texts(lines@);
            let ghost known = match place(state@, name@) {
                Some(p) => Some((state@[p].1, status_facts(facts@[p]@))),
                None => None,
            };
            let mut heading = "Pool: ".to_owned();
            heading.append(name);
            heading.append(" (");
            heading.append(pool_dir(config, name).as_str());
            heading.append(")");
            let ghost said = heading@;
            lines.push(heading);
            assert(texts(lines@) =~= rest + seq![said]);
            let ghost mid = texts(lines@);
            match state.pools.position(name) {
                Some(p) => {
                    let ps = state.pools.value(p);
                    if ps.clones.is_empty() {
                        lines.push("  No clones".to_owned());
                        assert(texts(lines@) =~= mid + seq!["  No clones"@]);
                    } else {
                        assert(config@.pools[i as int].0 == name@);
                        assert(examined(config@, on, state@[p as int].0));
                        show_clones(ps, &facts[p], &mut lines);
                    }
                },
                None => {
                    lines.push("  No state".to_owned());
                    assert(texts(lines@) =~= mid + seq!["  No state"@]);
                },
            }
            let ghost body = texts(lines@);
            lines.push("".to_owned());
            assert(texts(lines@) =~= body + seq![""@]);
            assert(texts(lines@) =~= rest + pool_status(config@, name@, known));
        }
    }
    Status::Lines(lines)
}

/// What the user is told where there is no pool to show.
pub fn no_pools_hint() -> (r: &'static str)
    ensures
        r@ == "No pools configured. Run 'rpool init' in a repository."@,
{
    "No pools configured. Run 'rpool init' in a repository."
}

// ---------------------------------------------------------------------------
// How the pools are set up
// ---------------------------------------------------------------------------

/// How the set-up of the first `n` pools is shown.
pub open spec fn pools_listed(config: ConfigView, n: int) -> Seq<Seq<char>>
    decreases n,
{
    if n <= 0 {
        seq!["Clones root: "@ + config.root, ""@]
    } else {
        let (name, pool) = config.pools[n - 1];
        pools_listed(config, n - 1) + seq![
            name,
            "  URL: "@ + pool.repo_url,
            "  Pool dir: "@ + pool_place(config, name),
        ] + (match pool.github_repo {
            Some(repo) => seq!["  GitHub: "@ + repo],
            None => Seq::empty(),
        }) + seq!["  Build: "@ + pool.build_command, ""@]
    }
}

/// Shows how the pools are set up; gives nothing where there is none.
pub fn list_pools(config: &Config) -> (r: Option<Vec<String>>)
    ensures
        r is None == (config@.pools.len() == 0),
        r matches Some(lines) ==> texts(lines@) == pools_listed(
            config@,
            config@.pools.len() as int,
        ),
{
    if config.pools.is_empty() {
        return None;
    }
    let mut root = "Clones root: ".to_owned();
    root.append(config.clones_root.as_str());
    let mut lines: Vec<String> = vec![root, "".to_owned()];
    assert(texts(lines@) =~= pools_listed(config@, 0));
    let n = config.pools.len();
    for i in 0..n
        invariant
            n == config@.pools.len(),
            texts(lines@) == pools_listed(config@, i as int),
    {
        let name = config.pools.name(i).as_str();
        let pool = config.pools.value(i);
        let ghost rest = texts(lines@);
        lines.push(name.to_owned());
        let mut url = "  URL: ".to_owned();
        url.append(pool.repo_url.as_str());
        lines.push(url);
        let mut dir = "  Pool dir: ".to_owned();
        dir.append(pool_dir(config, name).as_str());
        lines.push(dir);
        if let Some(repo) = &pool.github_repo {
            let mut line = "  GitHub: ".to_owned();
            line.append(repo.as_str());
            lines.push(line);
        }
        let mut build = "  Build: ".to_owned();
        build.append(pool.build_command.as_str());
        lines.push(build);
        lines.push("".to_owned());
        assert(config@.pools[i as int].0 == name@);
        assert(config@.pools[i as int].1 == pool@);
        assert(texts(lines@) =~= pools_listed(config@, i + 1));
    }
    Some(lines)
}

// ---------------------------------------------------------------------------
// What holds of what is shown
// ---------------------------------------------------------------------------

/// The line of every clone of every pool that is shown is among the lines.
pub proof fn law_every_clone_is_shown(
    config: ConfigView,
    state: Entries<Entries<CloneView>>,
    facts: Seq<Vec<StatusFacts>>,
    only: Option<Seq<char>>,
    n: int,
    i: int,
    c: int,
)
    requires
        0 <= i < n <= config.pools.len(),
        only is None || only == Some(config.pools[i].0),
        holds(state, config.pools[i].0),
        0 <= c < state[place(state, config.pools[i].0)->0].1.len(),
    ensures
        ({
            let p = place(state, config.pools[i].0)->0;
            let clone = state[p].1[c];
            status_lines(config, state, facts, only, n).contains(
                clone_line(clone.0, clone.1, status_facts(facts[p]@)[c]),
            )
        }),
    decreases n,
{
    broadcast use vstd::seq_lib::group_seq_properties;

    let name = config.pools[i].0;
    lemma_place(state, name);
    let p = place(state, name)->0;
    let clones = state[p].1;
    let fs = status_facts(facts[p]@);
    let line = clone_line(clones[c].0, clones[c].1, fs[c]);
    if i < n - 1 {
        law_every_clone_is_shown(config, state, facts, only, n - 1, i, c);
    } else {
        let all = Seq::new(clones.len(), |k: int| k);
        let leq = |a: int, b: int| shown_first(clones, a, b);
        lemma_shown_first(clones);
        all.lemma_sort_by_ensures(leq);
        assert(all[c] == c);
        vstd::seq_lib::to_multiset_contains(all, c);
        vstd::seq_lib::to_multiset_contains(shown_order(clones), c);
        let k = choose|k: int| 0 <= k < shown_order(clones).len() && shown_order(clones)[k] == c;
        assert(clone_lines(clones, fs)[k] == line);
        assert(clone_lines(clones, fs).contains(line));
    }
}

/// Every pool that is set up is listed by its name.
pub proof fn law_every_pool_is_listed(config: ConfigView, n: int, i: int)
    requires
        0 <= i < n <= config.pools.len(),
    ensures
        pools_listed(config, n).contains(config.pools[i].0),
    decreases n,
{
    broadcast use vstd::seq_lib::group_seq_properties;

    if i < n - 1 {
        law_every_pool_is_listed(config, n - 1, i);
    } else {
        let k = pools_listed(config, n - 1).len() as int;
        assert(pools_listed(config, n)[k] == config.pools[i].0);
    }
}

/// How the line of a clone is made up. A clone that is clean and not pinned is shown
/// with its name and its branch; a pin, uncommitted changes, and changes that cannot be
/// told each add their mark behind that, whatever else is known of the clone.
pub proof fn law_clone_line(
    name: Seq<char>,
    clone: CloneView,
    branch: Option<Seq<char>>,
    dirty: Option<bool>,
)
    ensures
        ({
            let clean = StatusFactsView { branch, dirty: Some(false) };
            let seen = StatusFactsView { branch, dirty };
            let loose = CloneView { pinned: false, ..clone };
            let fixed = CloneView { pinned: true, ..clone };
            let shown = if clone.branch is None {
                "(unassigned)"@
            } else if branch is None || branch == clone.branch {
                clone.branch->0
            } else {
                clone.branch->0 + " (actual: "@ + branch->0 + ")"@
            };
            &&& clone_line(name, loose, clean) == "  "@ + name + " -> "@ + shown
            &&& clone_line(name, fixed, clean) == clone_line(name, loose, clean) + " [pinned]"@
            &&& dirty == Some(true) ==> clone_line(name, clone, seen) == clone_line(
                name,
                clone,
                clean,
            ) + " [dirty]"@
            &&& dirty == Some(false) ==> clone_line(name, clone, seen) == clone_line(
                name,
                clone,
                clean,
            )
            &&& dirty is None ==> clone_line(name, clone, seen) == clone_line(name, clone, clean)
                + " [error reading clone]"@
        }),
{
    reveal_strlit("");
    let clean = StatusFactsView { branch, dirty: Some(false) };
    let seen = StatusFactsView { branch, dirty };
    let loose = CloneView { pinned: false, ..clone };
    let fixed = CloneView { pinned: true, ..clone };
    let start = "  "@ + name + " -> "@ + branch_text(clone.branch, branch);
    assert(clone_line(name, loose, clean) =~= start);
    assert(clone_line(name, fixed, clean) =~= start + " [pinned]"@);
    assert(clone == loose || clone == fixed);
    if dirty == Some(true) {
        assert(clone_line(name, clone, seen) =~= clone_line(name, clone, clean) + " [dirty]"@);
    }
    if dirty is None {
        assert(clone_line(name, clone, seen) =~= clone_line(name, clone, clean)
            + " [error reading clone]"@);
    }
}

/// Where neither branch holds a closing bracket, a line ends with the mark for changes
/// if and only if the clone is known to have some, and with the mark for an error if and
/// only if that cannot be told.
pub proof fn law_marks_are_told_apart(name: Seq<char>, clone: CloneView, facts: StatusFactsView)
    requires
        clone.branch matches Some(b) ==> !b.contains(']'),
        facts.branch matches Some(b) ==> !b.contains(']'),
    ensures
        ends_with(clone_line(name, clone, facts), " [dirty]"@) <==> facts.dirty == Some(true),
        ends_with(clone_line(name, clone, facts), " [error reading clone]"@) <==> facts.dirty is None,
{
    reveal_strlit(" [dirty]");
    reveal_strlit(" [error reading clone]");
    reveal_strlit(" [pinned]");
    reveal_strlit("(unassigned)");
    reveal_strlit(" -> ");
    reveal_strlit(")");
    law_clone_line(name, clone, facts.branch, facts.dirty);
    let line = clone_line(name, clone, facts);
    let clean = clone_line(name, clone, StatusFactsView { dirty: Some(false), ..facts });
    let dirt = " [dirty]"@;
    let error = " [error reading clone]"@;
    let shown = branch_text(clone.branch, facts.branch);
    let start = "  "@ + name + " -> "@ + shown;
    assert(dirt.last() == ']' && error.last() == ']' && dirt[6] == 'y' && error[20] == 'e');
    match facts.dirty {
        Some(true) => {
            assert(line.skip(line.len() - dirt.len()) =~= dirt);
            if ends_with(line, error) {
                assert(line.skip(line.len() - error.len())[20] == line[line.len() - 2]);
            }
        },
        None => {
            assert(line.skip(line.len() - error.len()) =~= error);
            if ends_with(line, dirt) {
                assert(line.skip(line.len() - dirt.len())[6] == line[line.len() - 2]);
            }
        },
        Some(false) => {
            assert(line == clean);
            if ends_with(line, dirt) {
                assert(line.skip(line.len() - dirt.len())[6] == line[line.len() - 2]);
                assert(line.skip(line.len() - dirt.len())[7] == line[line.len() - 1]);
            }
            if ends_with(line, error) {
                assert(line.skip(line.len() - error.len())[20] == line[line.len() - 2]);
                assert(line.skip(line.len() - error.len())[21] == line[line.len() - 1]);
            }
            if clone.pinned {
                assert(line == start + " [pinned]"@);
                assert(line[line.len() - 2] == 'd');
            } else {
                assert(line == start);
                assert(line.last() != ']') by {
                    if shown.len() == 0 {
                        assert(line.last() == ' ');
                    } else {
                        assert(line.last() == shown.last());
                        match clone.branch {
                            Some(b) => {
                                if b.len() > 0 {
                                    assert(b.contains(b.last()));
                                }
                            },
                            None => {},
                        }
                    }
                }
            }
        },
    }
}

/// A pool is shown with a heading that names it and its directory, then what is known
/// of its clones, then an empty line.
pub proof fn law_pool_block(
    config: ConfigView,
    name: Seq<char>,
    clones: Entries<CloneView>,
    facts: Seq<StatusFactsView>,
)
    ensures
        ({
            let heading = "Pool: "@ + name + " ("@ + join(config.root, name) + ")"@;
            &&& pool_status(config, name, None) == seq![heading, "  No state"@, ""@]
            &&& clones.len() == 0 ==> pool_status(config, name, Some((clones, facts))) == seq![
                heading,
                "  No clones"@,
                ""@,
            ]
            &&& clones.len() > 0 ==> {
                let block = pool_status(config, name, Some((clones, facts)));
                &&& block.len() == clones.len() + 2
                &&& block[0] == heading
                &&& block[clones.len() as int + 1] == ""@
                &&& forall|k: int|
                    #![trigger shown_order(clones)[k]]
                    0 <= k < clones.len() ==> block[k + 1] == clone_line(
                        clones[shown_order(clones)[k]].0,
                        clones[shown_order(clones)[k]].1,
                        facts[shown_order(clones)[k]],
                    )
            }
        }),
{
    let heading = "Pool: "@ + name + " ("@ + join(config.root, name) + ")"@;
    assert(pool_status(config, name, None) =~= seq![heading, "  No state"@, ""@]);
    if clones.len() == 0 {
        assert(pool_status(config, name, Some((clones, facts))) =~= seq![
            heading,
            "  No clones"@,
            ""@,
        ]);
    } else {
        let all = Seq::new(clones.len(), |i: int| i);
        let leq = |x: int, y: int| shown_first(clones, x, y);
        lemma_shown_first(clones);
        all.lemma_sort_by_ensures(leq);
        vstd::seq_lib::to_multiset_len(all);
        vstd::seq_lib::to_multiset_len(all.sort_by(leq));
        assert(shown_order(clones).len() == clones.len());
    }
}

/// The clones of a pool are shown in an order in which one that was used later never
/// comes after one that was used earlier, and each of them once.
pub proof fn law_later_use_is_shown_first(clones: Entries<CloneView>, a: int, b: int)
    requires
        0 <= a < b < clones.len(),
    ensures
        ({
            let order = shown_order(clones);
            let first = clones[order[a]].1.last_used;
            let second = clones[order[b]].1.last_used;
            &&& order.len() == clones.len()
            &&& 0 <= order[a] < clones.len() && 0 <= order[b] < clones.len()
            &&& order[a] != order[b]
            &&& first.seconds >= second.seconds
            &&& first.seconds == second.seconds ==> first.nanos >= second.nanos
            &&& first == second ==> order[a] < order[b]
        }),
{
    law_shown_order(clones, a, b);
    let order = shown_order(clones);
    let all = Seq::new(clones.len(), |i: int| i);
    assert(order.contains(order[a]) && order.contains(order[b]));
    vstd::seq_lib::to_multiset_contains(order, order[a]);
    vstd::seq_lib::to_multiset_contains(order, order[b]);
    vstd::seq_lib::to_multiset_contains(all, order[a]);
    vstd::seq_lib::to_multiset_contains(all, order[b]);
    if order[a] == order[b] {
        assert(all.no_duplicates());
        all.lemma_multiset_has_no_duplicates();
        order.lemma_multiset_has_no_duplicates_conv();
    }
}

/// The pools are shown one after the other as they are listed, and only the one that was
/// asked for where one was.
pub proof fn law_pools_are_shown_in_turn(
    config: ConfigView,
    state: Entries<Entries<CloneView>>,
    facts: Seq<Vec<StatusFacts>>,
    only: Option<Seq<char>>,
    n: int,
)
    requires
        0 <= n < config.pools.len(),
    ensures
        ({
            let name = config.pools[n].0;
            let before = status_lines(config, state, facts, only, n);
            let after = status_lines(config, state, facts, only, n + 1);
            &&& status_lines(config, state, facts, only, 0) == Seq::<Seq<char>>::empty()
            &&& only is Some && only->0 != name ==> after == before
            &&& only is None || only->0 == name ==> {
                &&& !holds(state, name) ==> after == before + pool_status(config, name, None)
                &&& forall|p: int|
                    0 <= p < state.len() && (#[trigger] state[p]).0 == name && (forall|q: int|
                        0 <= q < p ==> (#[trigger] state[q]).0 != name) ==> after == before
                        + pool_status(
                        config,
                        name,
                        Some((state[p].1, status_facts(facts[p]@))),
                    )
            }
        }),
{
    let name = config.pools[n].0;
    lemma_place(state, name);
    assert forall|p: int|
        0 <= p < state.len() && (#[trigger] state[p]).0 == name && (forall|q: int|
            0 <= q < p ==> (#[trigger] state[q]).0 != name) implies place(state, name) == Some(
        p,
    ) by {
        assert(holds(state, name));
        let i = place(state, name)->0;
        if i < p {
            assert(state[i].0 != name);
        }
        if p < i {
            assert(state[p].0 != name);
        }
    }
}

/// The set-up of a pool is listed after that of those before it: its name, where its
/// clones come from and where they are, its repository at GitHub if it has one, and its
/// build command.
pub proof fn law_listed_pool(config: ConfigView, n: int)
    requires
        0 <= n < config.pools.len(),
    ensures
        ({
            let (name, pool) = config.pools[n];
            let start = seq![
                name,
                "  URL: "@ + pool.repo_url,
                "  Pool dir: "@ + join(config.root, name),
            ];
            let end = seq!["  Build: "@ + pool.build_command, ""@];
            let before = pools_listed(config, n);
            &&& pools_listed(config, 0) == seq!["Clones root: "@ + config.root, ""@]
            &&& pool.github_repo is None ==> pools_listed(config, n + 1) == before + start + end
            &&& pool.github_repo matches Some(repo) ==> pools_listed(config, n + 1) == before
                + start.push("  GitHub: "@ + repo) + end
        }),
{
    let (name, pool) = config.pools[n];
    let start = seq![
        name,
        "  URL: "@ + pool.repo_url,
        "  Pool dir: "@ + join(config.root, name),
    ];
    let end = seq!["  Build: "@ + pool.build_command, ""@];
    let before = pools_listed(config, n);
    match pool.github_repo {
        None => {
            assert(pools_listed(config, n + 1) =~= before + start + end);
        },
        Some(repo) => {
            assert(pools_listed(config, n + 1) =~= before + start.push("  GitHub: "@ + repo) + end);
        },
    }
}

} // verus!
