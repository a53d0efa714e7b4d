//! The records of pools and clones, and the commands that change them.

use rpool::clones::{cd, drop_clone, rm_pool, set_pinned, unknown_pool_message, CdError};
use rpool::doctor::{doctor, examine, CloneFacts, Finding, Report};
use rpool::model::{
    default_build_command, default_clones_root, enter_pool, is_before, pool_dir, BranchCache,
    BranchList, CloneState, Config, PoolConfig, PoolState, State, Timestamp,
};
use rpool::resolve::{current_clone, find_clone, resolve_pool, CloneError, ResolveError};
use rpool::table::Table;

fn at(seconds: i64) -> Timestamp {
    Timestamp { seconds, nanos: 0 }
}

fn clone_at(path: &str, branch: Option<&str>, used: i64, pinned: bool) -> CloneState {
    CloneState {
        path: path.to_string(),
        assigned_branch: branch.map(|b| b.to_string()),
        last_used: at(used),
        pinned,
    }
}

fn pool_config(url: &str) -> PoolConfig {
    PoolConfig {
        repo_url: url.to_string(),
        github_repo: None,
        build_command: default_build_command(),
    }
}

fn config(names: &[&str]) -> Config {
    let mut c = Config::initial(Some("/home/u"));
    for n in names {
        c.pools.insert(n.to_string(), pool_config(&format!("git:{}", n)));
    }
    c
}

fn state(pools: &[(&str, Vec<(&str, CloneState)>)]) -> State {
    let mut s = State::new();
    for (pool, clones) in pools {
        let mut ps = PoolState::new();
        for (name, c) in clones {
            ps.clones.insert(
                name.to_string(),
                clone_at(&c.path, c.assigned_branch.as_deref(), c.last_used.seconds, c.pinned),
            );
        }
        s.pools.insert(pool.to_string(), ps);
    }
    s
}

fn record<'a>(s: &'a State, pool: &str, clone: &str) -> &'a CloneState {
    s.pools.get(pool).unwrap().clones.get(clone).unwrap()
}

#[test]
fn tables_keep_one_value_for_each_name_in_order() {
    let mut t: Table<BranchList> = Table::new();
    assert!(t.is_empty());
    t.insert("b".to_string(), BranchList { branches: vec!["1".to_string()] });
    t.insert("a".to_string(), BranchList { branches: vec!["2".to_string()] });
    t.insert("b".to_string(), BranchList { branches: vec!["3".to_string()] });
    assert_eq!(t.len(), 2);
    assert_eq!(t.all_names(), vec!["b", "a"]);
    assert_eq!(t.get("b").unwrap().branches, vec!["3"]);
    assert_eq!(t.position("a"), Some(1));
    assert!(t.contains("a") && !t.contains("c"));
    assert!(t.get("c").is_none());
    t.value_mut(1).branches.push("4".to_string());
    assert_eq!(t.value(1).branches, vec!["2", "4"]);
    assert!(t.remove("b"));
    assert!(!t.remove("b"));
    assert_eq!(t.name(0), "a");
    t.remove_at(0);
    assert!(t.is_empty());
}

#[test]
fn moments_are_ordered_by_seconds_and_then_nanoseconds() {
    let a = Timestamp { seconds: 1, nanos: 5 };
    let b = Timestamp { seconds: 1, nanos: 6 };
    let c = Timestamp { seconds: 2, nanos: 0 };
    assert!(is_before(a, b) && is_before(b, c) && is_before(a, c));
    assert!(!is_before(a, a) && !is_before(c, a));
    assert!(is_before(at(-1), at(0)));
}

#[test]
fn pools_live_below_the_root() {
    assert_eq!(default_clones_root(Some("/home/u")), "/home/u/rppool");
    assert_eq!(default_clones_root(None), "./rppool");
    let c = config(&["p"]);
    assert_eq!(c.clones_root, "/home/u/rppool");
    assert_eq!(pool_dir(&c, "p"), "/home/u/rppool/p");
    assert_eq!(default_build_command(), "cargo build");
}

#[test]
fn entering_a_pool_twice_enters_it_once() {
    let mut s = State::new();
    assert_eq!(enter_pool(&mut s, "p"), 0);
    assert_eq!(enter_pool(&mut s, "q"), 1);
    assert_eq!(enter_pool(&mut s, "p"), 0);
    assert_eq!(s.pools.len(), 2);
}

#[test]
fn the_pool_that_is_asked_for_wins_over_the_directory() {
    let c = config(&["p", "q"]);
    let s = State::new();
    let inside_p = "/home/u/rppool/p/x";
    assert_eq!(resolve_pool(&c, &s, Some("q"), inside_p), Ok("q".to_string()));
    assert_eq!(resolve_pool(&c, &s, None, inside_p), Ok("p".to_string()));
    assert_eq!(resolve_pool(&c, &s, Some("r"), inside_p), Err(ResolveError::UnknownPool));
    assert_eq!(
        ResolveError::UnknownPool.message(&c, "r", inside_p),
        "Pool 'r' not found. Available pools: p, q"
    );
}

#[test]
fn the_directory_of_a_pool_wins_over_the_clones_of_another() {
    let c = config(&["p", "q"]);
    let s = state(&[("q", vec![("c", clone_at("/home/u/rppool/p/c", None, 1, false))])]);
    assert_eq!(resolve_pool(&c, &s, None, "/home/u/rppool/p/c/src"), Ok("p".to_string()));
}

#[test]
fn a_clone_elsewhere_tells_its_pool_if_that_is_set_up() {
    let c = config(&["p"]);
    let s = state(&[
        ("gone", vec![("c", clone_at("/work/c", None, 1, false))]),
        ("p", vec![("d", clone_at("/work/d", None, 1, false))]),
    ]);
    assert_eq!(resolve_pool(&c, &s, None, "/work/d/src"), Ok("p".to_string()));
    assert_eq!(resolve_pool(&c, &s, None, "/work/c/src"), Err(ResolveError::Undetected));
    assert_eq!(
        ResolveError::Undetected.message(&c, "", "/work/c"),
        "Could not detect pool from current directory.\nUse -p <pool> to specify a pool, or cd to a pool directory.\nCurrent dir: /work/c"
    );
}

#[test]
fn a_clone_is_found_by_name_or_by_the_current_directory() {
    let s = state(&[(
        "p",
        vec![
            ("c", clone_at("/w/c", None, 1, false)),
            ("d", clone_at("/w/d", None, 1, false)),
        ],
    )]);
    let ps = s.pools.get("p").unwrap();
    assert_eq!(find_clone(ps, Some("d"), "/w/c"), Ok(1));
    assert_eq!(find_clone(ps, None, "/w/c/deep"), Ok(0));
    assert_eq!(find_clone(ps, None, "/w"), Err(CloneError::NotInClone));
    assert_eq!(find_clone(ps, Some("e"), "/w/c"), Err(CloneError::NotFound));
    assert_eq!(current_clone(ps, "/w/d"), Some(1));
    assert_eq!(current_clone(ps, "/w/dd"), None);
    assert_eq!(
        CloneError::NotInClone.message(""),
        "Not in a clone directory. Specify clone name."
    );
    assert_eq!(CloneError::NotFound.message("e"), "Clone 'e' not found");
}

#[test]
fn dropping_clears_the_assignment_and_nothing_else() {
    let mut s = state(&[(
        "p",
        vec![
            ("c", clone_at("/w/c", Some("main"), 7, true)),
            ("d", clone_at("/w/d", Some("dev"), 8, false)),
        ],
    )]);
    let dropped = drop_clone(&mut s, "p", None, "/w/c/src").unwrap();
    assert_eq!(dropped.clone, "c");
    assert_eq!(dropped.branch.as_deref(), Some("main"));
    assert_eq!(dropped.message(), "Dropped assignment: c -> main");
    assert_eq!(record(&s, "p", "c").assigned_branch, None);
    assert_eq!(record(&s, "p", "c").last_used, at(7));
    assert!(record(&s, "p", "c").pinned);
    assert_eq!(record(&s, "p", "d").assigned_branch.as_deref(), Some("dev"));
    let again = drop_clone(&mut s, "p", Some("c"), "/").unwrap();
    assert_eq!(again.message(), "Clone 'c' was not assigned");
    assert_eq!(drop_clone(&mut s, "p", Some("x"), "/").err(), Some(CloneError::NotFound));
    assert_eq!(drop_clone(&mut s, "p", None, "/").err(), Some(CloneError::NotInClone));
    assert_eq!(drop_clone(&mut s, "q", Some("c"), "/").err(), Some(CloneError::NotFound));
    assert_eq!(s.pools.len(), 1);
}

#[test]
fn pinning_is_undone_by_unpinning() {
    let mut s = state(&[("p", vec![("c", clone_at("/w/c", Some("main"), 7, false))])]);
    let p = set_pinned(&mut s, "p", Some("c"), "/", true).unwrap();
    assert!(p.changed);
    assert_eq!(p.message(), "Pinned clone 'c'");
    let p = set_pinned(&mut s, "p", Some("c"), "/", true).unwrap();
    assert!(!p.changed);
    assert_eq!(p.message(), "Clone 'c' is already pinned");
    assert!(record(&s, "p", "c").pinned);
    assert_eq!(record(&s, "p", "c").assigned_branch.as_deref(), Some("main"));
    let p = set_pinned(&mut s, "p", None, "/w/c", false).unwrap();
    assert_eq!(p.message(), "Unpinned clone 'c'");
    let p = set_pinned(&mut s, "p", Some("c"), "/", false).unwrap();
    assert_eq!(p.message(), "Clone 'c' is not pinned");
    assert!(!record(&s, "p", "c").pinned);
    assert_eq!(set_pinned(&mut s, "p", Some("x"), "/", true).err(), Some(CloneError::NotFound));
}

#[test]
fn removing_a_pool_forgets_it_everywhere() {
    let mut c = config(&["p", "q"]);
    let mut s = state(&[("p", vec![]), ("q", vec![("c", clone_at("/w/c", None, 1, false))])]);
    let mut b = BranchCache::new();
    b.pools.insert("p".to_string(), BranchList { branches: vec![] });
    b.pools.insert("q".to_string(), BranchList { branches: vec!["x".to_string()] });
    assert!(!rm_pool(&mut c, &mut s, &mut b, "r"));
    assert_eq!(c.pools.len() + s.pools.len() + b.pools.len(), 6);
    assert!(rm_pool(&mut c, &mut s, &mut b, "p"));
    assert!(!c.pools.contains("p") && !s.pools.contains("p") && !b.pools.contains("p"));
    assert_eq!(c.pools.get("q").unwrap().repo_url, "git:q");
    assert_eq!(b.pools.get("q").unwrap().branches, vec!["x"]);
    assert_eq!(unknown_pool_message("r"), "Pool 'r' not found");
}

#[test]
fn a_clone_is_found_across_pools_unless_its_name_is_ambiguous() {
    let s = state(&[
        ("p", vec![("c", clone_at("/w/pc", None, 1, false)), ("x", clone_at("/w/x", None, 1, false))]),
        ("q", vec![("c", clone_at("/w/qc", None, 1, false))]),
    ]);
    assert_eq!(cd(&s, "x", None), Ok("/w/x".to_string()));
    assert_eq!(cd(&s, "c", Some("q")), Ok("/w/qc".to_string()));
    assert_eq!(cd(&s, "c", Some("r")), Err(CdError::UnknownPool));
    assert_eq!(cd(&s, "x", Some("q")), Err(CdError::NotInPool));
    assert_eq!(cd(&s, "y", None), Err(CdError::Nowhere));
    assert_eq!(cd(&s, "c", None), Err(CdError::Ambiguous));
    assert_eq!(CdError::UnknownPool.message(&s, "c", "r"), "Pool 'r' not found");
    assert_eq!(CdError::NotInPool.message(&s, "x", "q"), "No clone 'x' in pool 'q'");
    assert_eq!(CdError::Nowhere.message(&s, "y", ""), "No clone named 'y' found in any pool");
    assert_eq!(
        CdError::Ambiguous.message(&s, "c", ""),
        "Clone 'c' exists in multiple pools. Use -p <pool> to disambiguate:\n  /w/pc (pool: p)\n  /w/qc (pool: q)"
    );
}

fn present(branch: Result<&str, &str>, remote: Result<&str, &str>) -> CloneFacts {
    CloneFacts::Present {
        branch: branch.map(|b| b.to_string()).map_err(|e| e.to_string()),
        remote: remote.map(|b| b.to_string()).map_err(|e| e.to_string()),
    }
}

fn all_lines(r: &Report) -> Vec<String> {
    r.lines.iter().chain(r.closing.iter()).cloned().collect()
}

fn sick_state() -> State {
    state(&[
        ("orphan", vec![("o", clone_at("/w/o", None, 1, false))]),
        (
            "p",
            vec![
                ("gone", clone_at("/w/gone", Some("main"), 1, false)),
                ("off", clone_at("/w/off", Some("main"), 2, true)),
                ("loose", clone_at("/w/loose", Some("main"), 3, false)),
                ("mute", clone_at("/w/mute", Some("dev"), 4, false)),
                ("free", clone_at("/w/free", None, 5, false)),
            ],
        ),
        ("q", vec![("c", clone_at("/w/q", Some("x"), 6, false))]),
    ])
}

fn sick_facts() -> Vec<Vec<CloneFacts>> {
    vec![
        vec![],
        vec![
            CloneFacts::Missing,
            present(Ok("other"), Ok("git:p")),
            present(Ok("HEAD"), Ok("git:else")),
            present(Err("no head"), Err("no remote")),
            present(Ok("whatever"), Ok("git:p")),
        ],
        vec![present(Ok("x"), Ok("git:q"))],
    ]
}

#[test]
fn everything_that_is_wrong_is_found_once() {
    let c = config(&["p", "q", "unrecorded"]);
    let s = sick_state();
    let f = examine(&c, &s, &sick_facts(), None);
    assert_eq!(
        f,
        vec![
            Finding::Orphan { pool: 0 },
            Finding::Missing { pool: 1, clone: 0 },
            Finding::BranchMismatch { pool: 1, clone: 1 },
            Finding::BranchMismatch { pool: 1, clone: 2 },
            Finding::UrlMismatch { pool: 1, clone: 2 },
            Finding::BranchUnreadable { pool: 1, clone: 3 },
            Finding::UrlUnreadable { pool: 1, clone: 3 },
            Finding::Duplicate { pool: 1, clone: 1 },
        ]
    );
    assert_eq!(examine(&c, &s, &sick_facts(), Some("q")), vec![]);
}

#[test]
fn a_report_tells_what_is_wrong_and_changes_nothing_unless_asked() {
    let c = config(&["p", "q"]);
    let mut s = sick_state();
    let r = doctor(&c, &mut s, &sick_facts(), false, None).unwrap();
    assert!(!r.changed);
    assert_eq!(
        all_lines(&r),
        vec![
            "WARN: pool 'orphan' exists in state but not in config (orphaned)",
            "WARN: [p/gone] path does not exist: /w/gone",
            "WARN: [p/off] branch mismatch: state says 'main', actual is 'other'",
            "WARN: [p/loose] branch mismatch: state says 'main', actual is 'HEAD'",
            "WARN: [p/loose] remote URL mismatch: pool expects 'git:p', clone has 'git:else'",
            "WARN: [p/mute] could not read branch: no head",
            "WARN: [p/mute] could not read remote URL: no remote",
            "WARN: [p] branch 'main' is assigned to multiple clones: off, loose",
            "",
            "8 issue(s) found. Run with --fix to auto-repair what can be fixed.",
        ]
    );
    assert_eq!(s.pools.len(), 3);
    assert_eq!(s.pools.get("p").unwrap().clones.len(), 5);
    assert_eq!(record(&s, "p", "off").assigned_branch.as_deref(), Some("main"));
}

#[test]
fn a_repair_mends_what_can_be_mended() {
    let c = config(&["p", "q"]);
    let mut s = sick_state();
    let r = doctor(&c, &mut s, &sick_facts(), true, None).unwrap();
    assert!(r.changed);
    assert_eq!(
        all_lines(&r),
        vec![
            "WARN: pool 'orphan' exists in state but not in config (orphaned)",
            "  FIXED: removed orphaned pool 'orphan' from state",
            "WARN: [p/gone] path does not exist: /w/gone",
            "  FIXED: removed clone 'gone' from pool 'p' state",
            "WARN: [p/off] branch mismatch: state says 'main', actual is 'other'",
            "  FIXED: updated [p/off] branch to 'other'",
            "WARN: [p/loose] branch mismatch: state says 'main', actual is 'HEAD'",
            "  FIXED: updated [p/loose] branch to '(unassigned)'",
            "WARN: [p/loose] remote URL mismatch: pool expects 'git:p', clone has 'git:else'",
            "WARN: [p/mute] could not read branch: no head",
            "WARN: [p/mute] could not read remote URL: no remote",
            "WARN: [p] branch 'main' is assigned to multiple clones: off, loose",
            "",
            "8 issue(s) found, 4 fixed.",
            "4 issue(s) require manual intervention.",
        ]
    );
    assert_eq!(s.pools.all_names(), vec!["p", "q"]);
    assert_eq!(
        s.pools.get("p").unwrap().clones.all_names(),
        vec!["off", "loose", "mute", "free"]
    );
    assert_eq!(record(&s, "p", "off").assigned_branch.as_deref(), Some("other"));
    assert!(record(&s, "p", "off").pinned);
    assert_eq!(record(&s, "p", "loose").assigned_branch, None);
    assert_eq!(record(&s, "p", "mute").assigned_branch.as_deref(), Some("dev"));
    assert_eq!(record(&s, "q", "c").assigned_branch.as_deref(), Some("x"));

    let mut later = sick_facts();
    later.remove(0);
    later[0].remove(0);
    let r = doctor(&c, &mut s, &later, true, None).unwrap();
    assert!(!r.changed);
    assert_eq!(
        r.closing,
        vec!["", "3 issue(s) found, 0 fixed.", "3 issue(s) require manual intervention."]
    );
}

#[test]
fn a_repair_of_one_pool_leaves_the_others_alone() {
    let c = config(&["p", "q"]);
    let mut s = sick_state();
    let mut facts = sick_facts();
    facts[2] = vec![];
    let r = doctor(&c, &mut s, &facts, true, Some("p")).unwrap();
    assert!(r.changed);
    assert_eq!(s.pools.all_names(), vec!["orphan", "p", "q"]);
    assert_eq!(s.pools.get("p").unwrap().clones.len(), 4);
    assert!(doctor(&c, &mut s, &facts, true, Some("nope")).is_none());
}

#[test]
fn a_repair_of_everything_leaves_no_remark_behind() {
    let c = config(&["p"]);
    let mut s = state(&[("p", vec![("gone", clone_at("/w/gone", None, 1, false))])]);
    let r = doctor(&c, &mut s, &vec![vec![CloneFacts::Missing]], true, None).unwrap();
    assert_eq!(r.closing, vec!["", "1 issue(s) found, 1 fixed."]);
    assert_eq!(r.lines.len(), 2);
}

#[test]
fn a_detached_clone_that_was_recorded_so_stays_as_it_is() {
    let c = config(&["p"]);
    let mut s = state(&[("p", vec![("c", clone_at("/w/c", Some("HEAD"), 1, false))])]);
    let facts = vec![vec![present(Ok("HEAD"), Ok("git:p"))]];
    let r = doctor(&c, &mut s, &facts, true, None).unwrap();
    assert!(!r.changed);
    assert_eq!(record(&s, "p", "c").assigned_branch.as_deref(), Some("HEAD"));
}
