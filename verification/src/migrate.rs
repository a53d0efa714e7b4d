//! Moving clones to where their pools keep them.

use vstd::prelude::*;

use crate::model::{pool_dir, pool_place, state_ok, CloneView, Config, ConfigView, State};
use crate::path::{is_same_path, join, join_path, same_path};
use crate::table::{holds, lemma_same_names, unique, Entries};
use crate::text::{opt_str, same_text, texts};

verus! {

/// What there is at a clone's place, and where it would move to.
#[derive(Clone, Copy, Debug, PartialEq, Eq, Structural)]
pub struct PlaceFacts {
    /// Whether the clone is where it is recorded.
    pub source_exists: bool,
    /// Whether there is something where it would move to.
    pub target_exists: bool,
}

/// What is done about a clone.
#[derive(Clone, Copy, Debug, PartialEq, Eq, Structural)]
pub enum MoveKind {
    /// It stays where it is, as asked.
    Kept,
    /// It is already where it belongs.
    AlreadyThere,
    /// It stays, for its place is taken.
    TargetTaken,
    /// It is gone; only its record moves.
    SourceGone,
    /// It moves, and its record with it.
    Moved,
}

/// Sets the directory that clones are moved to, where one was asked for; it becomes
/// the root of all clones.
pub fn set_migration_root(config: &mut Config, clones_root: Option<&str>)
    ensures
        final(config)@.pools == old(config)@.pools,
        final(config)@.root == (match clones_root {
            Some(root) => root@,
            None => old(config)@.root,
        }),
{
    if let Some(root) = clones_root {
        config.clones_root = root.to_owned();
    }
}

/// Where a clone belongs.
pub open spec fn target_of(config: ConfigView, pool: Seq<char>, clone: Seq<char>) -> Seq<char> {
    join(pool_place(config, pool), clone)
}

/// Where a clone belongs.
pub fn migration_target(config: &Config, pool: &str, clone: &str) -> (r: String)
    ensures
        r@ == target_of(config@, pool@, clone@),
{
    join_path(pool_dir(config, pool).as_str(), clone)
}

/// The name of the clone of a pool that stays where it is: the one that was asked
/// for, or the one that is named like the pool.
pub open spec fn kept_name(keep: Option<Seq<char>>, pool: Seq<char>) -> Seq<char> {
    match keep {
        Some(name) => name,
        None => pool,
    }
}

/// What is done about a clone.
pub open spec fn move_of(
    config: ConfigView,
    keep: Option<Seq<char>>,
    pool: Seq<char>,
    clone: (Seq<char>, CloneView),
    facts: PlaceFacts,
) -> MoveKind {
    if clone.0 == kept_name(keep, pool) {
        MoveKind::Kept
    } else if same_path(clone.1.path, target_of(config, pool, clone.0)) {
        MoveKind::AlreadyThere
    } else if facts.target_exists {
        MoveKind::TargetTaken
    } else if !facts.source_exists {
        MoveKind::SourceGone
    } else {
        MoveKind::Moved
    }
}

/// What the user is told of a clone.
pub open spec fn move_text(
    kind: MoveKind,
    name: Seq<char>,
    path: Seq<char>,
    target: Seq<char>,
) -> Seq<char> {
    match kind {
        MoveKind::Kept => "  "@ + name + " -> kept in place ("@ + path + ")"@,
        MoveKind::AlreadyThere => "  "@ + name + " -> already at "@ + target,
        MoveKind::TargetTaken => "  "@ + name + " -> WARNING: target already exists, skipping ("@
            + target + ")"@,
        MoveKind::SourceGone => "  "@ + name
            + " -> WARNING: source does not exist, updating path only ("@ + path + ")"@,
        MoveKind::Moved => "  "@ + name + " -> moving "@ + path + " -> "@ + target,
    }
}

fn move_message(kind: MoveKind, name: &str, path: &str, target: &str) -> (r: String)
    ensures
        r@ == move_text(kind, name@, path@, target@),
{
    let mut r = "  ".to_owned();
    r.append(name);
    match kind {
        MoveKind::Kept => {
            r.append(" -> kept in place (");
            r.append(path);
            r.append(")");
        },
        MoveKind::AlreadyThere => {
            r.append(" -> already at ");
            r.append(target);
        },
        MoveKind::TargetTaken => {
            r.append(" -> WARNING: target already exists, skipping (");
            r.append(target);
            r.append(")");
        },
        MoveKind::SourceGone => {
            r.append(" -> WARNING: source does not exist, updating path only (");
            r.append(path);
            r.append(")");
        },
        MoveKind::Moved => {
            r.append(" -> moving ");
            r.append(path);
            r.append(" -> ");
            r.append(target);
        },
    }
    r
}

/// A clone whose record moves: which one, and whether the clone itself moves too.
#[derive(Clone, Copy, Debug, PartialEq, Eq, Structural)]
pub struct Move {
    pub pool: usize,
    pub clone: usize,
    pub rename: bool,
}

/// What a [`Move`] says.
pub struct MoveView {
    pub pool: int,
    pub clone: int,
    pub rename: bool,
}

impl View for Move {
    type V = MoveView;

    open spec fn view(&self) -> MoveView {
        MoveView { pool: self.pool as int, clone: self.clone as int, rename: self.rename }
    }
}

/// What the moves say, in order.
pub open spec fn moves_of(v: Seq<Move>) -> Seq<MoveView> {
    v.map_values(|m: Move| m@)
}

/// There are facts of every clone of a pool that is set up.
pub open spec fn places_known(
    config: ConfigView,
    state: Entries<Entries<CloneView>>,
    facts: Seq<Vec<PlaceFacts>>,
) -> bool {
    &&& facts.len() == state.len()
    &&& forall|p: int|
        0 <= p < state.len() && holds(config.pools, #[trigger] state[p].0) ==> facts[p]@.len()
            == state[p].1.len()
}

/// The moves among the first `n` clones of a pool.
pub open spec fn pool_moves(
    config: ConfigView,
    keep: Option<Seq<char>>,
    p: int,
    pool: (Seq<char>, Entries<CloneView>),
    facts: Seq<PlaceFacts>,
    n: int,
) -> Seq<MoveView>
    decreases n,
{
    if n <= 0 {
        Seq::empty()
    } else {
        let rest = pool_moves(config, keep, p, pool, facts, n - 1);
        match move_of(config, keep, pool.0, pool.1[n - 1], facts[n - 1]) {
            MoveKind::SourceGone => rest.push(MoveView { pool: p, clone: n - 1, rename: false }),
            MoveKind::Moved => rest.push(MoveView { pool: p, clone: n - 1, rename: true }),
            _ => rest,
        }
    }
}

/// The moves among the clones of the first `n` pools. Pools that are not set up are
/// left alone.
pub open spec fn all_moves(
    config: ConfigView,
    state: Entries<Entries<CloneView>>,
    keep: Option<Seq<char>>,
    facts: Seq<Vec<PlaceFacts>>,
    n: int,
) -> Seq<MoveView>
    decreases n,
{
    if n <= 0 {
        Seq::empty()
    } else {
        let rest = all_moves(config, state, keep, facts, n - 1);
        let pool = state[n - 1];
        if holds(config.pools, pool.0) {
            rest + pool_moves(config, keep, n - 1, pool, facts[n - 1]@, pool.1.len() as int)
        } else {
            rest
        }
    }
}

/// What the user is told of the first `n` clones of a pool.
pub open spec fn pool_lines(
    config: ConfigView,
    keep: Option<Seq<char>>,
    pool: (Seq<char>, Entries<CloneView>),
    facts: Seq<PlaceFacts>,
    n: int,
) -> Seq<Seq<char>>
    decreases n,
{
    if n <= 0 {
        Seq::empty()
    } else {
        let clone = pool.1[n - 1];
        pool_lines(config, keep, pool, facts, n - 1).push(
            move_text(
                move_of(config, keep, pool.0, clone, facts[n - 1]),
                clone.0,
                clone.1.path,
                target_of(config, pool.0, clone.0),
            ),
        )
    }
}

/// What the user is told of the first `n` pools.
pub open spec fn plan_lines(
    config: ConfigView,
    state: Entries<Entries<CloneView>>,
    keep: Option<Seq<char>>,
    facts: Seq<Vec<PlaceFacts>>,
    n: int,
) -> Seq<Seq<char>>
    decreases n,
{
    if n <= 0 {
        seq!["Migrating to clones root: "@ + config.root]
    } else {
        let rest = plan_lines(config, state, keep, facts, n - 1);
        let pool = state[n - 1];
        if holds(config.pools, pool.0) {
            rest.push("\nPool: "@ + pool.0) + pool_lines(
                config,
                keep,
                pool,
                facts[n - 1]@,
                pool.1.len() as int,
            )
        } else {
            rest
        }
    }
}

fn plan_pool(
    config: &Config,
    state: &State,
    keep: Option<&str>,
    facts: &Vec<PlaceFacts>,
    p: usize,
    moves: &mut Vec<Move>,
    lines: &mut Vec<String>,
)
    requires
        p < state@.len(),
        facts@.len() == state@[p as int].1.len(),
    ensures
        moves_of(final(moves)@) == moves_of(old(moves)@) + pool_moves(
            config@,
            opt_str(keep),
            p as int,
            state@[p as int],
            facts@,
            state@[p as int].1.len() as int,
        ),
        texts(final(lines)@) == texts(old(lines)@) + pool_lines(
            config@,
            opt_str(keep),
            state@[p as int],
            facts@,
            state@[p as int].1.len() as int,
        ),
{
    let ghost pool = state@[p as int];
    let ghost kp = opt_str(keep);
    let ghost moves_before = moves_of(moves@);
    let ghost lines_before = texts(lines@);
    let pool_name = state.pools.name(p).as_str();
    let kept = match keep {
        Some(name) => name,
        None => pool_name,
    };
    let clones = &state.pools.value(p).clones;
    let n = clones.len();
    assert(moves_before =~= moves_before + pool_moves(config@, kp, p as int, pool, facts@, 0));
    assert(lines_before =~= lines_before + pool_lines(config@, kp, pool, facts@, 0));
    for c in 0..n
        invariant
            n == pool.1.len(),
            n == facts@.len(),
            clones@ == pool.1,
            pool_name@ == pool.0,
            kept@ == kept_name(kp, pool.0),
            moves_of(moves@) == moves_before + pool_moves(
                config@,
                kp,
                p as int,
                pool,
                facts@,
                c as int,
            ),
            texts(lines@) == lines_before + pool_lines(config@, kp, pool, facts@, c as int),
    {
        let name = clones.name(c).as_str();
        let path = clones.value(c).path.as_str();
        let target = migration_target(config, pool_name, name);
        let kind = if same_text(name, kept) {
            MoveKind::Kept
        } else if is_same_path(path, target.as_str()) {
            MoveKind::AlreadyThere
        } else if facts[c].target_exists {
            MoveKind::TargetTaken
        } else if !facts[c].source_exists {
            MoveKind::SourceGone
        } else {
            MoveKind::Moved
        };
        let ghost said = move_text(kind, name@, path@, target@);
        assert(kind == move_of(config@, kp, pool.0, pool.1[c as int], facts@[c as int]));
        let ghost lines_then = lines@;
        lines.push(move_message(kind, name, path, target.as_str()));
        assert(texts(lines@) =~= texts(lines_then).push(said));
        assert(texts(lines@) =~= lines_before + pool_lines(config@, kp, pool, facts@, c + 1));
        let ghost moves_then = moves@;
        match kind {
            MoveKind::SourceGone => {
                let m = Move { pool: p, clone: c, rename: false };
                moves.push(m);
                assert(moves_of(moves@) =~= moves_of(moves_then).push(m@));
            },
            MoveKind::Moved => {
                let m = Move { pool: p, clone: c, rename: true };
                moves.push(m);
                assert(moves_of(moves@) =~= moves_of(moves_then).push(m@));
            },
            _ => {},
        }
        assert(moves_of(moves@) =~= moves_before + pool_moves(
            config@,
            kp,
            p as int,
            pool,
            facts@,
            c + 1,
        ));
    }
}

/// What is to be moved, and what the user is told of it.
pub struct MigrationPlan {
    pub moves: Vec<Move>,
    pub lines: Vec<String>,
}

/// Plans the moves of all clones of the pools that are set up to where they belong.
pub fn plan_migration(
    config: &Config,
    state: &State,
    keep: Option<&str>,
    facts: &Vec<Vec<PlaceFacts>>,
) -> (r: MigrationPlan)
    requires
        places_known(config@, state@, facts@),
    ensures
        moves_of(r.moves@) == all_moves(
            config@,
            state@,
            opt_str(keep),
            facts@,
            state@.len() as int,
        ),
        texts(r.lines@) == plan_lines(
            config@,
            state@,
            opt_str(keep),
            facts@,
            state@.len() as int,
        ),
        forall|i: int|
            0 <= i < r.moves@.len() ==> (#[trigger] r.moves@[i]).pool < state@.len()
                && r.moves@[i].clone < state@[r.moves@[i].pool as int].1.len(),
{
    let mut moves: Vec<Move> = Vec::new();
    let mut first = "Migrating to clones root: ".to_owned();
    first.append(config.clones_root.as_str());
    let mut lines: Vec<String> = vec![first];
    let n = state.pools.len();
    assert(moves_of(moves@) =~= Seq::empty());
    assert(texts(lines@) =~= plan_lines(config@, state@, opt_str(keep), facts@, 0));
    for p in 0..n
        invariant
            n == state@.len(),
            places_known(config@, state@, facts@),
            moves_of(moves@) == all_moves(config@, state@, opt_str(keep), facts@, p as int),
            texts(lines@) == plan_lines(config@, state@, opt_str(keep), facts@, p as int),
    {
        let name = state.pools.name(p).as_str();
        if config.pools.contains(name) {
            let mut heading = "\nPool: ".to_owned();
            heading.append(name);
            let ghost before = lines@;
            lines.push(heading);
            assert(texts(lines@) =~= texts(before).push("\nPool: "@ + name@));
            plan_pool(config, state, keep, &facts[p], p, &mut moves, &mut lines);
        }
    }
    proof {
        let planned = all_moves(config@, state@, opt_str(keep), facts@, state@.len() as int);
        assert forall|i: int| 0 <= i < moves@.len() implies (#[trigger] moves@[i]).pool
            < state@.len() && moves@[i].clone < state@[moves@[i].pool as int].1.len() by {
            assert(planned[i] == moves@[i]@);
            assert(planned.contains(moves@[i]@));
            law_planned_moves(config@, state@, opt_str(keep), facts@, moves@[i]@);
        }
    }
    MigrationPlan { moves, lines }
}

/// The recorded clones after a move: the record of the clone names the place where
/// it belongs.
pub open spec fn after_move(
    config: ConfigView,
    state: Entries<Entries<CloneView>>,
    m: MoveView,
) -> Entries<Entries<CloneView>> {
    let pool = state[m.pool];
    let clone = pool.1[m.clone];
    let moved = CloneView { path: target_of(config, pool.0, clone.0), ..clone.1 };
    state.update(m.pool, (pool.0, pool.1.update(m.clone, (clone.0, moved))))
}

/// A move leaves no name twice.
pub proof fn law_move_keeps_names_unique(
    config: ConfigView,
    state: Entries<Entries<CloneView>>,
    m: MoveView,
)
    requires
        state_ok(state),
        0 <= m.pool < state.len(),
        0 <= m.clone < state[m.pool].1.len(),
    ensures
        state_ok(after_move(config, state, m)),
{
    let after = after_move(config, state, m);
    lemma_same_names(state, after, state[m.pool].0);
    assert forall|p: int| 0 <= p < after.len() implies unique(#[trigger] after[p].1) by {
        assert(unique(state[p].1));
        lemma_same_names(state[p].1, after[p].1, state[p].0);
    }
}

/// Records a move.
pub fn apply_move(config: &Config, state: &mut State, m: Move)
    requires
        m.pool < old(state)@.len(),
        m.clone < old(state)@[m.pool as int].1.len(),
    ensures
        final(state)@ == after_move(config@, old(state)@, m@),
        state_ok(old(state)@) ==> state_ok(final(state)@),
{
    let ghost was = state@;
    proof {
        if state_ok(was) {
            law_move_keeps_names_unique(config@, was, m@);
        }
    }
    let target = migration_target(
        config,
        state.pools.name(m.pool).as_str(),
        state.pools.value(m.pool).clones.name(m.clone).as_str(),
    );
    let ps = state.pools.value_mut(m.pool);
    let cs = ps.clones.value_mut(m.clone);
    cs.path = target;
    assert(state@ =~= after_move(config@, was, m@));
}

/// What the user is told where a clone cannot be moved.
pub fn move_failure(from: &str, to: &str) -> (r: String)
    ensures
        r@ == "Failed to move "@ + from@ + " -> "@ + to@,
{
    let mut r = "Failed to move ".to_owned();
    r.append(from);
    r.append(" -> ");
    r.append(to);
    r
}

// ---------------------------------------------------------------------------
// What holds of migrations
// ---------------------------------------------------------------------------

/// The record of this clone moves.
pub open spec fn moves_record(
    config: ConfigView,
    state: Entries<Entries<CloneView>>,
    keep: Option<Seq<char>>,
    facts: Seq<Vec<PlaceFacts>>,
    p: int,
    c: int,
) -> bool {
    &&& 0 <= p < state.len()
    &&& holds(config.pools, state[p].0)
    &&& 0 <= c < state[p].1.len()
    &&& {
        let kind = move_of(config, keep, state[p].0, state[p].1[c], facts[p]@[c]);
        kind == MoveKind::SourceGone || kind == MoveKind::Moved
    }
}

proof fn lemma_pool_moves(
    config: ConfigView,
    keep: Option<Seq<char>>,
    p: int,
    pool: (Seq<char>, Entries<CloneView>),
    facts: Seq<PlaceFacts>,
    n: int,
    m: MoveView,
)
    requires
        0 <= n <= pool.1.len(),
    ensures
        pool_moves(config, keep, p, pool, facts, n).contains(m) == (m.pool == p && 0 <= m.clone < n
            && {
            let kind = move_of(config, keep, pool.0, pool.1[m.clone], facts[m.clone]);
            if m.rename {
                kind == MoveKind::Moved
            } else {
                kind == MoveKind::SourceGone
            }
        }),
    decreases n,
{
    broadcast use vstd::seq_lib::group_seq_properties;

    if n > 0 {
        lemma_pool_moves(config, keep, p, pool, facts, n - 1, m);
    }
}

proof fn lemma_all_moves(
    config: ConfigView,
    state: Entries<Entries<CloneView>>,
    keep: Option<Seq<char>>,
    facts: Seq<Vec<PlaceFacts>>,
    n: int,
    m: MoveView,
)
    requires
        0 <= n <= state.len(),
    ensures
        all_moves(config, state, keep, facts, n).contains(m) == (0 <= m.pool < n && moves_record(
            config,
            state,
            keep,
            facts,
            m.pool,
            m.clone,
        ) && m.rename == (move_of(
            config,
            keep,
            state[m.pool].0,
            state[m.pool].1[m.clone],
            facts[m.pool]@[m.clone],
        ) == MoveKind::Moved)),
    decreases n,
{
    broadcast use vstd::seq_lib::group_seq_properties;

    if n > 0 {
        lemma_all_moves(config, state, keep, facts, n - 1, m);
        let pool = state[n - 1];
        lemma_pool_moves(config, keep, n - 1, pool, facts[n - 1]@, pool.1.len() as int, m);
    }
}

/// The planned moves are those of the clones whose record moves, each with the
/// clone itself unless that is gone.
pub proof fn law_planned_moves(
    config: ConfigView,
    state: Entries<Entries<CloneView>>,
    keep: Option<Seq<char>>,
    facts: Seq<Vec<PlaceFacts>>,
    m: MoveView,
)
    ensures
        all_moves(config, state, keep, facts, state.len() as int).contains(m) == (moves_record(
            config,
            state,
            keep,
            facts,
            m.pool,
            m.clone,
        ) && m.rename == (move_of(
            config,
            keep,
            state[m.pool].0,
            state[m.pool].1[m.clone],
            facts[m.pool]@[m.clone],
        ) == MoveKind::Moved)),
{
    lemma_all_moves(config, state, keep, facts, state.len() as int, m);
}

/// The recorded clones after the first `n` moves.
pub open spec fn migrated(
    config: ConfigView,
    state: Entries<Entries<CloneView>>,
    moves: Seq<MoveView>,
    n: int,
) -> Entries<Entries<CloneView>>
    decreases n,
{
    if n <= 0 {
        state
    } else {
        after_move(config, migrated(config, state, moves, n - 1), moves[n - 1])
    }
}

/// Some of the first `n` moves is of this clone.
pub open spec fn touched(moves: Seq<MoveView>, n: int, p: int, c: int) -> bool {
    exists|i: int| 0 <= i < n && (#[trigger] moves[i]).pool == p && moves[i].clone == c
}

proof fn lemma_migrated(
    config: ConfigView,
    state: Entries<Entries<CloneView>>,
    moves: Seq<MoveView>,
    n: int,
)
    requires
        0 <= n <= moves.len(),
        forall|i: int|
            0 <= i < moves.len() ==> 0 <= (#[trigger] moves[i]).pool < state.len() && 0
                <= moves[i].clone < state[moves[i].pool].1.len(),
    ensures
        ({
            let after = migrated(config, state, moves, n);
            &&& after.len() == state.len()
            &&& forall|p: int|
                0 <= p < state.len() ==> (#[trigger] after[p]).0 == state[p].0 && after[p].1.len()
                    == state[p].1.len()
            &&& forall|p: int, c: int|
                #![trigger after[p].1[c]]
                0 <= p < state.len() && 0 <= c < state[p].1.len() ==> after[p].1[c].0
                    == state[p].1[c].0 && after[p].1[c].1 == if touched(moves, n, p, c) {
                    CloneView {
                        path: target_of(config, state[p].0, state[p].1[c].0),
                        ..state[p].1[c].1
                    }
                } else {
                    state[p].1[c].1
                }
        }),
    decreases n,
{
    if n > 0 {
        lemma_migrated(config, state, moves, n - 1);
        let before = migrated(config, state, moves, n - 1);
        let after = migrated(config, state, moves, n);
        let m = moves[n - 1];
        assert(before[m.pool].0 == state[m.pool].0);
        assert forall|p: int, c: int|
            #![trigger after[p].1[c]]
            0 <= p < state.len() && 0 <= c < state[p].1.len() implies after[p].1[c].0
            == state[p].1[c].0 && after[p].1[c].1 == if touched(moves, n, p, c) {
            CloneView { path: target_of(config, state[p].0, state[p].1[c].0), ..state[p].1[c].1 }
        } else {
            state[p].1[c].1
        } by {
            assert(before[p].1[c].0 == state[p].1[c].0);
            assert(before[p].0 == state[p].0 && before[p].1.len() == state[p].1.len());
            if p == m.pool && c == m.clone {
                assert(touched(moves, n, p, c));
            } else {
                assert(touched(moves, n, p, c) == touched(moves, n - 1, p, c)) by {
                    if touched(moves, n, p, c) {
                        let i = choose|i: int|
                            0 <= i < n && (#[trigger] moves[i]).pool == p && moves[i].clone == c;
                        assert(i != n - 1);
                    }
                }
                assert(after[p].1[c] == before[p].1[c]);
            }
        }
        assert forall|p: int| 0 <= p < state.len() implies (#[trigger] after[p]).0 == state[p].0
            && after[p].1.len() == state[p].1.len() by {
            assert(before[p].0 == state[p].0);
        }
    }
}

/// What the records hold when only the first `n` planned moves were made: a clone
/// whose move was among them is recorded where it belongs, with nothing else
/// changed; every other clone is recorded as before.
pub proof fn law_partial_migration(
    config: ConfigView,
    state: Entries<Entries<CloneView>>,
    keep: Option<Seq<char>>,
    facts: Seq<Vec<PlaceFacts>>,
    n: int,
    p: int,
    c: int,
)
    requires
        0 <= n <= all_moves(config, state, keep, facts, state.len() as int).len(),
        0 <= p < state.len(),
        0 <= c < state[p].1.len(),
    ensures
        ({
            let moves = all_moves(config, state, keep, facts, state.len() as int);
            let after = migrated(config, state, moves, n);
            let target = target_of(config, state[p].0, state[p].1[c].0);
            &&& after.len() == state.len()
            &&& after[p].0 == state[p].0
            &&& after[p].1.len() == state[p].1.len()
            &&& after[p].1[c].0 == state[p].1[c].0
            &&& after[p].1[c].1 == if touched(moves, n, p, c) {
                CloneView { path: target, ..state[p].1[c].1 }
            } else {
                state[p].1[c].1
            }
        }),
{
    let moves = all_moves(config, state, keep, facts, state.len() as int);
    assert forall|i: int| 0 <= i < moves.len() implies 0 <= (#[trigger] moves[i]).pool
        < state.len() && 0 <= moves[i].clone < state[moves[i].pool].1.len() by {
        assert(moves.contains(moves[i]));
        law_planned_moves(config, state, keep, facts, moves[i]);
    }
    lemma_migrated(config, state, moves, n);
    let after = migrated(config, state, moves, n);
    assert(after[p].0 == state[p].0);
    assert(after[p].1[c].0 == state[p].1[c].0);
}

/// The move `a` is of an earlier clone than the move `b`.
pub open spec fn listed_before(a: MoveView, b: MoveView) -> bool {
    a.pool < b.pool || (a.pool == b.pool && a.clone < b.clone)
}

/// The clones move in the order in which they are listed, so that no clone is planned
/// to move twice.
pub proof fn law_planned_once(
    config: ConfigView,
    state: Entries<Entries<CloneView>>,
    keep: Option<Seq<char>>,
    facts: Seq<Vec<PlaceFacts>>,
    i: int,
    j: int,
)
    requires
        0 <= i < j < all_moves(config, state, keep, facts, state.len() as int).len(),
    ensures
        ({
            let moves = all_moves(config, state, keep, facts, state.len() as int);
            &&& listed_before(moves[i], moves[j])
            &&& !(moves[i].pool == moves[j].pool && moves[i].clone == moves[j].clone)
        }),
{
    lemma_moves_in_order(config, state, keep, facts, state.len() as int);
}

proof fn lemma_moves_in_order(
    config: ConfigView,
    state: Entries<Entries<CloneView>>,
    keep: Option<Seq<char>>,
    facts: Seq<Vec<PlaceFacts>>,
    n: int,
)
    requires
        0 <= n <= state.len(),
    ensures
        ({
            let moves = all_moves(config, state, keep, facts, n);
            &&& forall|i: int| 0 <= i < moves.len() ==> (#[trigger] moves[i]).pool < n
            &&& forall|i: int, j: int|
                0 <= i < j < moves.len() ==> listed_before(#[trigger] moves[i], #[trigger] moves[j])
        }),
    decreases n,
{
    if n > 0 {
        lemma_moves_in_order(config, state, keep, facts, n - 1);
        let pool = state[n - 1];
        lemma_pool_moves_in_order(
            config,
            keep,
            n - 1,
            pool,
            facts[n - 1]@,
            pool.1.len() as int,
        );
        let rest = all_moves(config, state, keep, facts, n - 1);
        let more = pool_moves(config, keep, n - 1, pool, facts[n - 1]@, pool.1.len() as int);
        let moves = all_moves(config, state, keep, facts, n);
        if holds(config.pools, pool.0) {
            assert(moves == rest + more);
            assert forall|i: int| 0 <= i < moves.len() implies (#[trigger] moves[i]).pool < n by {
                if i >= rest.len() {
                    assert(moves[i] == more[i - rest.len()]);
                }
            }
            assert forall|i: int, j: int| 0 <= i < j < moves.len() implies listed_before(
                #[trigger] moves[i],
                #[trigger] moves[j],
            ) by {
                if j >= rest.len() {
                    assert(moves[j] == more[j - rest.len()]);
                    if i >= rest.len() {
                        assert(moves[i] == more[i - rest.len()]);
                    } else {
                        assert(moves[i] == rest[i]);
                    }
                }
            }
        }
    }
}

proof fn lemma_pool_moves_in_order(
    config: ConfigView,
    keep: Option<Seq<char>>,
    p: int,
    pool: (Seq<char>, Entries<CloneView>),
    facts: Seq<PlaceFacts>,
    n: int,
)
    ensures
        ({
            let moves = pool_moves(config, keep, p, pool, facts, n);
            &&& forall|i: int|
                0 <= i < moves.len() ==> (#[trigger] moves[i]).pool == p && moves[i].clone < n
            &&& forall|i: int, j: int|
                0 <= i < j < moves.len() ==> listed_before(#[trigger] moves[i], #[trigger] moves[j])
        }),
    decreases n,
{
    if n > 0 {
        lemma_pool_moves_in_order(config, keep, p, pool, facts, n - 1);
        let rest = pool_moves(config, keep, p, pool, facts, n - 1);
        let moves = pool_moves(config, keep, p, pool, facts, n);
        assert forall|i: int| 0 <= i < moves.len() implies (#[trigger] moves[i]).pool == p
            && moves[i].clone < n by {
            if i < rest.len() {
                assert(moves[i] == rest[i]);
            }
        }
        assert forall|i: int, j: int| 0 <= i < j < moves.len() implies listed_before(
            #[trigger] moves[i],
            #[trigger] moves[j],
        ) by {
            assert(moves[i] == rest[i]);
            if j < rest.len() {
                assert(moves[j] == rest[j]);
            }
        }
    }
}

/// Once all planned moves were made, exactly the clones whose record moves are
/// recorded where they belong, every other clone is recorded where it was, and
/// nothing but their path changed. Another migration leaves the moved clones alone,
/// whatever is found then.
pub proof fn law_migration(
    config: ConfigView,
    state: Entries<Entries<CloneView>>,
    keep: Option<Seq<char>>,
    facts: Seq<Vec<PlaceFacts>>,
    p: int,
    c: int,
    later: PlaceFacts,
)
    requires
        0 <= p < state.len(),
        0 <= c < state[p].1.len(),
    ensures
        ({
            let moves = all_moves(config, state, keep, facts, state.len() as int);
            let after = migrated(config, state, moves, moves.len() as int);
            let target = target_of(config, state[p].0, state[p].1[c].0);
            &&& after.len() == state.len()
            &&& after[p].0 == state[p].0
            &&& after[p].1.len() == state[p].1.len()
            &&& after[p].1[c].0 == state[p].1[c].0
            &&& moves_record(config, state, keep, facts, p, c) ==> {
                &&& after[p].1[c].1 == (CloneView { path: target, ..state[p].1[c].1 })
                &&& move_of(config, keep, after[p].0, after[p].1[c], later)
                    == MoveKind::AlreadyThere
            }
            &&& !moves_record(config, state, keep, facts, p, c) ==> after[p].1[c] == state[p].1[c]
        }),
{
    let moves = all_moves(config, state, keep, facts, state.len() as int);
    assert forall|i: int| 0 <= i < moves.len() implies 0 <= (#[trigger] moves[i]).pool
        < state.len() && 0 <= moves[i].clone < state[moves[i].pool].1.len() by {
        assert(moves.contains(moves[i]));
        law_planned_moves(config, state, keep, facts, moves[i]);
    }
    lemma_migrated(config, state, moves, moves.len() as int);
    let after = migrated(config, state, moves, moves.len() as int);
    assert(after[p].0 == state[p].0);
    assert(after[p].1[c].0 == state[p].1[c].0);
    if moves_record(config, state, keep, facts, p, c) {
        let m = MoveView {
            pool: p,
            clone: c,
            rename: move_of(config, keep, state[p].0, state[p].1[c], facts[p]@[c])
                == MoveKind::Moved,
        };
        law_planned_moves(config, state, keep, facts, m);
        let i = choose|i: int| 0 <= i < moves.len() && moves[i] == m;
        assert(moves[i].pool == p && moves[i].clone == c);
        assert(touched(moves, moves.len() as int, p, c));
    } else {
        if touched(moves, moves.len() as int, p, c) {
            let i = choose|i: int|
                0 <= i < moves.len() && (#[trigger] moves[i]).pool == p && moves[i].clone == c;
            assert(moves.contains(moves[i]));
            law_planned_moves(config, state, keep, facts, moves[i]);
        }
    }
}

/// The clone that is to be kept never moves; without a wish, that is the one named
/// like its pool.
pub proof fn law_kept_clone_stays(
    config: ConfigView,
    state: Entries<Entries<CloneView>>,
    keep: Option<Seq<char>>,
    facts: Seq<Vec<PlaceFacts>>,
    p: int,
    c: int,
)
    requires
        0 <= p < state.len(),
        0 <= c < state[p].1.len(),
        state[p].1[c].0 == kept_name(keep, state[p].0),
    ensures
        !moves_record(config, state, keep, facts, p, c),
{
}

/// What is done about a clone. The one that is to be kept stays; without a wish that is
/// the one named like its pool. Of the others, those that are where they belong stay, and
/// so do those whose place is taken; one that is gone has only its record moved; every
/// other one moves to the directory of its pool, under its own name.
pub proof fn law_what_moves(
    config: ConfigView,
    keep: Option<Seq<char>>,
    pool: Seq<char>,
    clone: (Seq<char>, CloneView),
    facts: PlaceFacts,
)
    ensures
        ({
            let kind = move_of(config, keep, pool, clone, facts);
            let kept = keep == Some(clone.0) || (keep is None && clone.0 == pool);
            let target = join(join(config.root, pool), clone.0);
            let there = same_path(clone.1.path, target);
            &&& target_of(config, pool, clone.0) == target
            &&& kind == MoveKind::Kept <==> kept
            &&& kind == MoveKind::AlreadyThere <==> !kept && there
            &&& kind == MoveKind::TargetTaken <==> !kept && !there && facts.target_exists
            &&& kind == MoveKind::SourceGone <==> !kept && !there && !facts.target_exists
                && !facts.source_exists
            &&& kind == MoveKind::Moved <==> !kept && !there && !facts.target_exists
                && facts.source_exists
        }),
{
}

/// A move records the clone at its place in the directory of its pool, and changes
/// nothing else.
pub proof fn law_one_move(
    config: ConfigView,
    state: Entries<Entries<CloneView>>,
    m: MoveView,
    p: int,
    c: int,
)
    requires
        0 <= m.pool < state.len(),
        0 <= m.clone < state[m.pool].1.len(),
        0 <= p < state.len(),
        0 <= c < state[p].1.len(),
    ensures
        ({
            let after = after_move(config, state, m);
            &&& after.len() == state.len()
            &&& after[p].0 == state[p].0 && after[p].1.len() == state[p].1.len()
            &&& after[p].1[c].0 == state[p].1[c].0
            &&& after[p].1[c].1 == if p == m.pool && c == m.clone {
                CloneView {
                    path: join(join(config.root, state[p].0), state[p].1[c].0),
                    ..state[p].1[c].1
                }
            } else {
                state[p].1[c].1
            }
        }),
{
}

/// The clones are told of one by one, pool by pool, and pools that are not set up are
/// passed over.
pub proof fn law_migration_words(
    config: ConfigView,
    state: Entries<Entries<CloneView>>,
    keep: Option<Seq<char>>,
    facts: Seq<Vec<PlaceFacts>>,
    n: int,
    c: int,
)
    requires
        0 <= n < state.len(),
        0 <= c < state[n].1.len(),
    ensures
        ({
            let pool = state[n];
            let before = plan_lines(config, state, keep, facts, n);
            let after = plan_lines(config, state, keep, facts, n + 1);
            let of_pool = |k: int| pool_lines(config, keep, pool, facts[n]@, k);
            let kind = move_of(config, keep, pool.0, pool.1[c], facts[n]@[c]);
            let name = pool.1[c].0;
            let path = pool.1[c].1.path;
            let target = join(join(config.root, pool.0), name);
            let said = if kind == MoveKind::Kept {
                "  "@ + name + " -> kept in place ("@ + path + ")"@
            } else if kind == MoveKind::AlreadyThere {
                "  "@ + name + " -> already at "@ + target
            } else if kind == MoveKind::TargetTaken {
                "  "@ + name + " -> WARNING: target already exists, skipping ("@ + target + ")"@
            } else if kind == MoveKind::SourceGone {
                "  "@ + name + " -> WARNING: source does not exist, updating path only ("@ + path
                    + ")"@
            } else {
                "  "@ + name + " -> moving "@ + path + " -> "@ + target
            };
            &&& plan_lines(config, state, keep, facts, 0) == seq![
                "Migrating to clones root: "@ + config.root,
            ]
            &&& !holds(config.pools, pool.0) ==> after == before
            &&& holds(config.pools, pool.0) ==> after == before + seq!["\nPool: "@ + pool.0]
                + of_pool(pool.1.len() as int)
            &&& of_pool(0) == Seq::<Seq<char>>::empty()
            &&& of_pool(c + 1) == of_pool(c).push(said)
        }),
{
    let pool = state[n];
    let before = plan_lines(config, state, keep, facts, n);
    assert(before.push("\nPool: "@ + pool.0) =~= before + seq!["\nPool: "@ + pool.0]);
}

/// Where every clone is recorded after a whole migration: at its place in the directory of
/// its pool, if the pool is set up, the clone is not to be kept and its place is free; else
/// where it was. The clone itself is renamed just where it is there and its record moves.
pub proof fn law_where_clones_end_up(
    config: ConfigView,
    state: Entries<Entries<CloneView>>,
    keep: Option<Seq<char>>,
    facts: Seq<Vec<PlaceFacts>>,
    p: int,
    c: int,
    rename: bool,
)
    requires
        0 <= p < state.len(),
        0 <= c < state[p].1.len(),
    ensures
        ({
            let moves = all_moves(config, state, keep, facts, state.len() as int);
            let after = migrated(config, state, moves, moves.len() as int);
            let (name, clone) = state[p].1[c];
            let target = join(join(config.root, state[p].0), name);
            let kept = keep == Some(name) || (keep is None && name == state[p].0);
            let moves_on = holds(config.pools, state[p].0) && !kept && !same_path(
                clone.path,
                target,
            ) && !facts[p]@[c].target_exists;
            &&& after[p].0 == state[p].0 && after[p].1[c].0 == name
            &&& after[p].1[c].1.path == if moves_on {
                target
            } else {
                clone.path
            }
            &&& after[p].1[c].1.branch == clone.branch && after[p].1[c].1.last_used
                == clone.last_used && after[p].1[c].1.pinned == clone.pinned
            &&& moves.contains(MoveView { pool: p, clone: c, rename }) <==> moves_on && rename
                == facts[p]@[c].source_exists
        }),
{
    law_migration(config, state, keep, facts, p, c, facts[p]@[c]);
    law_what_moves(config, keep, state[p].0, state[p].1[c], facts[p]@[c]);
    law_planned_moves(config, state, keep, facts, MoveView { pool: p, clone: c, rename });
}

} // verus!
