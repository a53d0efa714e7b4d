//! What the commands ask of `git`, of GitHub and of the shell, and how they read
//! the answers.

use rpool::checkout::{find_assigned, task_warning, Checkout, Event, Failure, Step, Task};
use rpool::command::{needs_lock, CommandKind};
use rpool::complete::{
    branches_named, complete_branches, complete_clones, complete_pools, completion_kind,
    BranchSource, CompletionKind,
};
use rpool::devconfig::{
    copy_dev_configs, dev_config_dirs, dev_config_places, find_dev_config_source, SourceSearch,
};
use rpool::git;
use rpool::init::{
    default_pool_name, extract_github_repo, init_summary, pool_name_for, register, set_up_pool,
    FoundRepo, InitError,
};
use rpool::migrate::{
    apply_move, migration_target, move_failure, plan_migration, set_migration_root, Move,
    PlaceFacts,
};
use rpool::model::{
    BranchCache, BranchList, CloneState, Config, PoolConfig, PoolState, State, Timestamp,
};
use rpool::names::NameFault;
use rpool::newclone::{auto_name, plan_clone, record_clone, CloneOutcome, NewError, NewStep};
use rpool::pr::{
    judge_answer, pull_request_request, read_document, read_reply, request_args, PrError,
    PullRequest,
};
use rpool::selection::{is_sooner, select_clean_clone, SelectError, Selection};
use rpool::shell::{
    bash_completion_script, completions, fish_completion_script, shell_command,
    zsh_completion_script,
};
use rpool::status::{display_order, list_pools, no_pools_hint, status, Status, StatusFacts};
use rpool::sync::{branch_clone, cached_message, fetch_message, sync, sync_failure, PoolSync};

fn moment(seconds: i64) -> Timestamp {
    Timestamp { seconds, nanos: 0 }
}

fn a_clone(path: &str, branch: Option<&str>, used: i64, pinned: bool) -> CloneState {
    CloneState {
        path: path.to_string(),
        assigned_branch: branch.map(|b| b.to_string()),
        last_used: moment(used),
        pinned,
    }
}

fn a_pool(clones: Vec<(&str, CloneState)>) -> PoolState {
    let mut p = PoolState::new();
    for (name, c) in clones {
        p.clones.insert(name.to_string(), c);
    }
    p
}

fn a_state(pools: Vec<(&str, Vec<(&str, CloneState)>)>) -> State {
    let mut s = State::new();
    for (name, clones) in pools {
        s.pools.insert(name.to_string(), a_pool(clones));
    }
    s
}

fn a_config(pools: &[(&str, Option<&str>)]) -> Config {
    let mut c = Config::initial(Some("/h"));
    for (name, gh) in pools {
        c.pools.insert(
            name.to_string(),
            PoolConfig {
                repo_url: format!("git:{}", name),
                github_repo: gh.map(|g| g.to_string()),
                build_command: "make".to_string(),
            },
        );
    }
    c
}

#[test]
fn git_is_asked_in_these_words() {
    assert_eq!(git::fetch_args(), vec!["fetch", "origin"]);
    assert_eq!(git::fetch_all_args(), vec!["fetch", "--all", "--prune"]);
    assert_eq!(git::pull_args(), vec!["pull", "--ff-only"]);
    assert_eq!(git::submodule_args(), vec!["submodule", "update", "--init", "--recursive"]);
    assert_eq!(git::checkout_args("b"), vec!["checkout", "b"]);
    assert_eq!(git::create_args("b"), vec!["checkout", "-b", "b", "origin/b"]);
    assert_eq!(git::fetch_ref_args("r"), vec!["fetch", "origin", "r"]);
    assert_eq!(git::clone_args(None, "u", "p"), vec!["clone", "u", "p"]);
    assert_eq!(
        git::clone_args(Some("k"), "u", "p"),
        vec!["clone", "--reference", "k", "u", "p"]
    );
    assert_eq!(git::remote_url_args(), vec!["remote", "get-url", "origin"]);
    assert_eq!(git::head_branch_args(), vec!["rev-parse", "--abbrev-ref", "HEAD"]);
    assert_eq!(git::status_args(), vec!["status", "--porcelain"]);
    assert_eq!(
        git::remote_branch_list_args(),
        vec!["branch", "-r", "--format=%(refname:short)"]
    );
    assert_eq!(git::branch_list_args(), vec!["branch", "--format=%(refname:short)"]);
}

#[test]
fn the_answers_of_git_are_read() {
    let args = git::pull_args();
    assert_eq!(git::run_git(&args, true), Ok(()));
    assert_eq!(git::run_git(&args, false), Err("git pull --ff-only failed".to_string()));
    assert_eq!(
        git::run_git_output(&args, true, b" main\n".to_vec(), ""),
        Ok("main".to_string())
    );
    assert_eq!(
        git::run_git_output(&args, false, b"x".to_vec(), "oops\n"),
        Err("git pull --ff-only failed: oops\n".to_string())
    );
    assert_eq!(
        git::run_git_output(&args, true, vec![0x61, 0xff], ""),
        Err("invalid utf-8 sequence of 1 bytes from index 1".to_string())
    );
    assert_eq!(
        git::get_remote_url(true, vec![0x61, 0xff]),
        git::run_git_output(&args, true, vec![0x61, 0xff], "")
    );
    assert_eq!(git::get_remote_url(true, b"u\n".to_vec()), Ok("u".to_string()));
    assert_eq!(
        git::get_remote_url(false, b"u\n".to_vec()),
        Err("Failed to get remote URL".to_string())
    );
    assert_eq!(git::has_uncommitted_changes("/c", true, &b" M x\n".to_vec(), ""), Ok(true));
    assert_eq!(git::has_uncommitted_changes("/c", true, &Vec::new(), ""), Ok(false));
    assert_eq!(
        git::has_uncommitted_changes("/c", false, &Vec::new(), "bad"),
        Err("git status failed in /c: bad".to_string())
    );
}

#[test]
fn remote_branches_are_those_of_origin_but_for_head() {
    assert_eq!(
        git::collect_remote_branches("origin/HEAD\norigin/main\r\nupstream/x\norigin/a/b\norigin"),
        vec!["main", "a/b"]
    );
    assert!(git::collect_remote_branches("").is_empty());
}

#[test]
fn github_repositories_are_known_by_their_urls() {
    for url in [
        "git@github.com:org/repo.git",
        "git@github.com:org/repo",
        "https://github.com/org/repo.git",
        "https://github.com/org/repo",
        "https://github.com/org/repo.git.git",
    ] {
        assert_eq!(extract_github_repo(url).as_deref(), Some("org/repo"), "{}", url);
    }
    assert_eq!(extract_github_repo("https://gitlab.com/org/repo"), None);
    assert_eq!(extract_github_repo("/srv/repo.git"), None);
    assert_eq!(extract_github_repo("http://github.com/org/repo"), None);
    assert_eq!(extract_github_repo("git@github.com:").as_deref(), Some(""));
}

#[test]
fn a_pool_is_named_like_its_repository() {
    assert_eq!(default_pool_name("git@github.com:org/repo.git"), "repo");
    assert_eq!(default_pool_name("/srv/thing"), "thing");
    assert_eq!(default_pool_name("thing.git"), "thing");
    assert_eq!(default_pool_name("https://x/y/"), "");
    assert_eq!(pool_name_for("/srv/thing", Some("other")), "other");
    assert_eq!(pool_name_for("/srv/thing", None), "thing");
}

#[test]
fn a_pool_is_set_up_once_and_under_a_proper_name() {
    let mut c = a_config(&[]);
    assert_eq!(
        set_up_pool(&mut c, "p", "git@github.com:o/r.git", Some("/root"), Some("make")),
        Ok(())
    );
    let p = c.pools.get("p").unwrap();
    assert_eq!(p.repo_url, "git@github.com:o/r.git");
    assert_eq!(p.github_repo.as_deref(), Some("o/r"));
    assert_eq!(p.build_command, "make");
    assert_eq!(c.clones_root, "/root");
    assert_eq!(
        set_up_pool(&mut c, "p", "u", Some("/other"), None),
        Err(InitError::AlreadyExists)
    );
    assert_eq!(c.clones_root, "/root");
    assert_eq!(
        set_up_pool(&mut c, "", "u", None, None),
        Err(InitError::BadName(NameFault::Empty))
    );
    assert_eq!(InitError::BadName(NameFault::Empty).message(""), "Pool name cannot be empty");
    assert_eq!(InitError::AlreadyExists.message("p"), "Pool 'p' already exists");
    assert_eq!(set_up_pool(&mut c, "q", "/srv/q", None, None), Ok(()));
    assert_eq!(c.clones_root, "/root");
    assert_eq!(c.pools.get("q").unwrap().build_command, "cargo build");
    assert_eq!(
        init_summary(&c, "p", 12),
        vec![
            "Initialized pool 'p'",
            "  Clones root: /root",
            "  Pool directory: /root/p",
            "  GitHub repo: o/r",
            "  Build command: make",
            "  Clones found: 12",
        ]
    );
}

fn a_repo(path: &str, url: Option<&str>, current: bool, seen: i64) -> FoundRepo {
    FoundRepo {
        path: path.to_string(),
        url: url.map(|u| u.to_string()),
        branch: Some("main".to_string()),
        seen: moment(seen),
        current,
    }
}

#[test]
fn repositories_of_the_pool_are_registered_once() {
    let mut s = a_state(vec![("p", vec![("old", a_clone("/x/old", Some("dev"), 1, true))])]);
    let repos = vec![
        a_repo("/work/here", Some("u"), true, 10),
        a_repo("/r/p/other", Some("v"), false, 11),
        a_repo("/r/p/here", Some("u"), false, 12),
        a_repo("/r/p/new", Some("u"), false, 13),
        a_repo("/r/p/broken", None, false, 14),
        a_repo("/r/p/old", Some("u"), false, 15),
    ];
    let lines = register(&mut s, "p", "u", &repos);
    assert_eq!(
        lines,
        vec!["  Registered current repo as clone: here", "  Found existing clone: new"]
    );
    let clones = &s.pools.get("p").unwrap().clones;
    assert_eq!(clones.all_names(), vec!["old", "here", "new"]);
    assert_eq!(clones.get("old").unwrap().path, "/x/old");
    assert_eq!(clones.get("here").unwrap().path, "/work/here");
    assert_eq!(clones.get("new").unwrap().last_used, moment(13));
    assert_eq!(clones.get("new").unwrap().assigned_branch.as_deref(), Some("main"));
    assert!(!clones.get("new").unwrap().pinned);
    assert!(register(&mut s, "q", "u", &Vec::new()).is_empty());
    assert!(s.pools.contains("q"));
}

#[test]
fn clones_are_tried_unassigned_first_then_unpinned_then_oldest() {
    let pool = a_pool(vec![
        ("a", a_clone("/a", Some("x"), 1, false)),
        ("b", a_clone("/b", Some("x"), 0, true)),
        ("c", a_clone("/c", None, 9, true)),
        ("d", a_clone("/d", None, 10, false)),
        ("e", a_clone("/e", Some("x"), 2, false)),
    ]);
    assert!(is_sooner(&pool, 3, 2) && is_sooner(&pool, 2, 0) && !is_sooner(&pool, 1, 4));
    let mut answers = vec![None; 5];
    for expected in [3usize, 2, 0, 4, 1] {
        assert_eq!(
            select_clean_clone(&pool, &answers).ok().unwrap(),
            Selection::Probe(expected)
        );
        answers[expected] = Some(false);
    }
    assert_eq!(select_clean_clone(&pool, &answers).err(), Some(SelectError::AllDirty));
    answers[0] = Some(true);
    assert_eq!(select_clean_clone(&pool, &answers).ok().unwrap(), Selection::Take(0));
    let empty = PoolState::new();
    assert_eq!(select_clean_clone(&empty, &Vec::new()).err(), Some(SelectError::NoClones));
    assert_eq!(
        SelectError::NoClones.message(),
        "No clones in pool. Run 'rpool new' first."
    );
    assert_eq!(
        SelectError::AllDirty.message(),
        "All clones have uncommitted changes. Commit or stash changes in at least one clone."
    );
}

#[test]
fn a_new_clone_takes_the_first_free_number() {
    let pool = a_pool(vec![
        ("p-3", a_clone("/3", None, 1, false)),
        ("p-4", a_clone("/4", None, 1, false)),
    ]);
    assert_eq!(auto_name(&pool, "p"), "p-5");
    assert_eq!(auto_name(&PoolState::new(), "p"), "p-1");
    let gap = a_pool(vec![("x", a_clone("/x", None, 1, false))]);
    assert_eq!(auto_name(&gap, "p"), "p-2");
}

#[test]
fn a_new_clone_is_made_step_by_step() {
    let run = |free: bool, cloned: bool, modules: bool| {
        let mut step = NewStep::first();
        assert_eq!(step, NewStep::CheckPlace);
        for ok in [free, cloned, modules] {
            step = step.next(ok);
        }
        step
    };
    assert_eq!(NewStep::first().next(true), NewStep::Clone);
    assert_eq!(NewStep::Clone.next(true), NewStep::Modules);
    assert_eq!(run(true, true, true), NewStep::Record(CloneOutcome::Made));
    assert_eq!(run(false, true, true), NewStep::Record(CloneOutcome::Occupied));
    assert_eq!(run(true, false, true), NewStep::Record(CloneOutcome::CloneFailed));
    assert_eq!(run(true, true, false), NewStep::Record(CloneOutcome::SubmodulesFailed));
}

#[test]
fn a_new_clone_is_planned_and_recorded_only_if_made() {
    let c = a_config(&[("p", None)]);
    let mut s = a_state(vec![]);
    let plan = plan_clone(&c, &s, "p", None).ok().unwrap();
    assert_eq!(plan.path, "/h/rppool/p/p-1");
    assert_eq!(plan.reference, None);
    assert_eq!(plan.args, vec!["clone", "git:p", "/h/rppool/p/p-1"]);
    assert_eq!(plan.announcement(), vec!["Creating clone: p-1", "  Path: /h/rppool/p/p-1"]);
    let now = moment(5);
    assert_eq!(
        record_clone(&mut s, "p", &plan, CloneOutcome::Occupied, now),
        Err("Directory already exists: /h/rppool/p/p-1".to_string())
    );
    assert_eq!(
        record_clone(&mut s, "p", &plan, CloneOutcome::CloneFailed, now),
        Err("git clone failed".to_string())
    );
    assert_eq!(
        record_clone(&mut s, "p", &plan, CloneOutcome::SubmodulesFailed, now),
        Err("git submodule update --init --recursive failed".to_string())
    );
    assert!(s.pools.is_empty());
    assert_eq!(record_clone(&mut s, "p", &plan, CloneOutcome::Made, now), Ok(()));
    let made = s.pools.get("p").unwrap().clones.get("p-1").unwrap();
    assert_eq!(made.path, "/h/rppool/p/p-1");
    assert_eq!(made.assigned_branch, None);
    assert_eq!(made.last_used, now);
    assert!(!made.pinned);
    let plan = plan_clone(&c, &s, "p", Some("mine")).ok().unwrap();
    assert_eq!(
        plan.args,
        vec!["clone", "--reference", "/h/rppool/p/p-1", "git:p", "/h/rppool/p/mine"]
    );
    assert_eq!(plan.announcement()[2], "  Using reference: /h/rppool/p/p-1");
    assert_eq!(plan_clone(&c, &s, "p", Some("p-1")).err(), Some(NewError::AlreadyExists));
    assert_eq!(
        plan_clone(&c, &s, "p", Some("-x")).err(),
        Some(NewError::BadName(NameFault::LeadingDash))
    );
    assert_eq!(NewError::AlreadyExists.message("p-1"), "Clone 'p-1' already exists");
    assert_eq!(
        NewError::BadName(NameFault::LeadingDash).message("-x"),
        "Clone name '-x' must not start with '-'"
    );
}

fn facts(source_exists: bool, target_exists: bool) -> PlaceFacts {
    PlaceFacts { source_exists, target_exists }
}

#[test]
fn a_migration_moves_what_it_can() {
    let mut c = a_config(&[("p", None), ("q", None)]);
    set_migration_root(&mut c, None);
    assert_eq!(c.clones_root, "/h/rppool");
    set_migration_root(&mut c, Some("/new"));
    assert_eq!(c.clones_root, "/new");
    assert_eq!(c.pools.all_names(), vec!["p", "q"]);
    let mut s = a_state(vec![
        (
            "p",
            vec![
                ("p", a_clone("/old/p", Some("main"), 1, false)),
                ("there", a_clone("/new/p/./there", None, 2, false)),
                ("blocked", a_clone("/old/blocked", None, 3, false)),
                ("gone", a_clone("/old/gone", None, 4, false)),
                ("go", a_clone("/old/go", Some("dev"), 5, true)),
            ],
        ),
        ("orphan", vec![("o", a_clone("/old/o", None, 6, false))]),
        ("q", vec![("p", a_clone("/old/qp", None, 7, false))]),
    ]);
    let found = vec![
        vec![
            facts(true, false),
            facts(true, true),
            facts(true, true),
            facts(false, false),
            facts(true, false),
        ],
        vec![],
        vec![facts(true, false)],
    ];
    let plan = plan_migration(&c, &s, None, &found);
    assert_eq!(
        plan.lines,
        vec![
            "Migrating to clones root: /new",
            "\nPool: p",
            "  p -> kept in place (/old/p)",
            "  there -> already at /new/p/there",
            "  blocked -> WARNING: target already exists, skipping (/new/p/blocked)",
            "  gone -> WARNING: source does not exist, updating path only (/old/gone)",
            "  go -> moving /old/go -> /new/p/go",
            "\nPool: q",
            "  p -> moving /old/qp -> /new/q/p",
        ]
    );
    assert_eq!(
        plan.moves,
        vec![
            Move { pool: 0, clone: 3, rename: false },
            Move { pool: 0, clone: 4, rename: true },
            Move { pool: 2, clone: 0, rename: true },
        ]
    );
    apply_move(&c, &mut s, plan.moves[0]);
    let p = &s.pools.get("p").unwrap().clones;
    assert_eq!(p.get("gone").unwrap().path, "/new/p/gone");
    assert_eq!(p.get("go").unwrap().path, "/old/go");
    for m in &plan.moves[1..] {
        apply_move(&c, &mut s, *m);
    }
    let p = &s.pools.get("p").unwrap().clones;
    assert_eq!(p.get("p").unwrap().path, "/old/p");
    assert_eq!(p.get("blocked").unwrap().path, "/old/blocked");
    assert_eq!(p.get("gone").unwrap().path, "/new/p/gone");
    assert_eq!(p.get("go").unwrap().path, "/new/p/go");
    assert_eq!(p.get("go").unwrap().assigned_branch.as_deref(), Some("dev"));
    assert!(p.get("go").unwrap().pinned);
    assert_eq!(s.pools.get("orphan").unwrap().clones.get("o").unwrap().path, "/old/o");
    let again = plan_migration(&c, &s, None, &found);
    assert!(again.moves.is_empty());
    let kept = plan_migration(&c, &s, Some("go"), &found);
    assert_eq!(kept.lines[2], "  p -> moving /old/p -> /new/p/p");
    assert_eq!(kept.lines[6], "  go -> kept in place (/new/p/go)");
    assert_eq!(migration_target(&c, "p", "x"), "/new/p/x");
    assert_eq!(move_failure("/a", "/b"), "Failed to move /a -> /b");
}

#[test]
fn clones_are_shown_with_the_last_used_first() {
    let pool = a_pool(vec![
        ("a", a_clone("/a", None, 5, false)),
        ("b", a_clone("/b", None, 9, false)),
        ("c", a_clone("/c", None, 5, false)),
        ("d", a_clone("/d", None, 1, false)),
        ("e", a_clone("/e", None, 9, false)),
    ]);
    assert_eq!(display_order(&pool), vec![1, 4, 0, 2, 3]);
    assert!(display_order(&PoolState::new()).is_empty());
}

fn seen(branch: Option<&str>, dirty: Option<bool>) -> StatusFacts {
    StatusFacts { branch: branch.map(|b| b.to_string()), dirty }
}

#[test]
fn the_status_shows_every_clone_as_it_stands() {
    let c = a_config(&[("p", None), ("bare", None), ("empty", None)]);
    let s = a_state(vec![
        (
            "p",
            vec![
                ("a", a_clone("/a", Some("main"), 1, true)),
                ("b", a_clone("/b", Some("main"), 2, false)),
                ("c", a_clone("/c", None, 3, false)),
                ("d", a_clone("/d", Some("dev"), 4, true)),
            ],
        ),
        ("empty", vec![]),
    ]);
    let found = vec![
        vec![
            seen(Some("main"), Some(true)),
            seen(Some("other"), Some(false)),
            seen(Some("other"), Some(false)),
            seen(None, None),
        ],
        vec![],
    ];
    let shown = match status(&c, &s, &found, None) {
        Status::Lines(lines) => lines,
        _ => panic!("no lines"),
    };
    assert_eq!(
        shown,
        vec![
            "Pool: p (/h/rppool/p)",
            "  d -> dev [pinned] [error reading clone]",
            "  c -> (unassigned)",
            "  b -> main (actual: other)",
            "  a -> main [pinned] [dirty]",
            "",
            "Pool: bare (/h/rppool/bare)",
            "  No state",
            "",
            "Pool: empty (/h/rppool/empty)",
            "  No clones",
            "",
        ]
    );
    let one = match status(&c, &s, &found, Some("empty")) {
        Status::Lines(lines) => lines,
        _ => panic!("no lines"),
    };
    assert_eq!(one, vec!["Pool: empty (/h/rppool/empty)", "  No clones", ""]);
    assert!(matches!(status(&c, &s, &found, Some("nope")), Status::UnknownPool));
    assert!(matches!(status(&a_config(&[]), &s, &found, Some("nope")), Status::NoPools));
    assert_eq!(no_pools_hint(), "No pools configured. Run 'rpool init' in a repository.");
}

#[test]
fn pools_are_listed_with_their_set_up() {
    assert!(list_pools(&a_config(&[])).is_none());
    assert_eq!(
        list_pools(&a_config(&[("p", Some("o/r")), ("q", None)])).unwrap(),
        vec![
            "Clones root: /h/rppool",
            "",
            "p",
            "  URL: git:p",
            "  Pool dir: /h/rppool/p",
            "  GitHub: o/r",
            "  Build: make",
            "",
            "q",
            "  URL: git:q",
            "  Pool dir: /h/rppool/q",
            "  Build: make",
            "",
        ]
    );
}

#[test]
fn words_are_completed_from_what_is_recorded() {
    let c = a_config(&[("p", None), ("q", None)]);
    let s = a_state(vec![
        ("q", vec![("q1", a_clone("/q1", None, 1, false))]),
        ("orphan", vec![("o", a_clone("/o", None, 1, false))]),
        (
            "p",
            vec![
                ("p1", a_clone("/p1", None, 1, false)),
                ("p2", a_clone("/p2", None, 1, false)),
            ],
        ),
    ]);
    assert_eq!(completion_kind("pools"), CompletionKind::Pools);
    assert_eq!(completion_kind("clones"), CompletionKind::Clones);
    assert_eq!(completion_kind("branches"), CompletionKind::Branches);
    assert_eq!(completion_kind("x"), CompletionKind::Other);
    assert_eq!(complete_pools(&c), vec!["p", "q"]);
    assert_eq!(complete_clones(&c, &s, None), vec!["p1", "p2", "q1"]);
    assert_eq!(complete_clones(&c, &s, Some("q")), vec!["q1"]);
    assert!(complete_clones(&c, &s, Some("orphan")).is_empty());

    let mut cache = BranchCache::new();
    cache.pools.insert("q".to_string(), BranchList { branches: vec!["b".to_string()] });
    cache.pools.insert("r".to_string(), BranchList { branches: vec!["c".to_string()] });
    let known = |source: BranchSource| match source {
        BranchSource::Known(b) => b,
        _ => panic!("not known"),
    };
    assert_eq!(known(complete_branches(&c, &s, &cache, Some("q"), "/")), vec!["b"]);
    assert_eq!(known(complete_branches(&c, &s, &cache, Some("r"), "/")), vec!["c"]);
    assert_eq!(known(complete_branches(&c, &s, &cache, None, "/")), vec!["b", "c"]);
    assert!(matches!(
        complete_branches(&c, &s, &cache, None, "/h/rppool/p/p1"),
        BranchSource::Ask(path) if path == "/p1"
    ));
    assert!(matches!(
        complete_branches(&c, &s, &cache, Some("nope"), "/"),
        BranchSource::Nowhere
    ));
    assert_eq!(branches_named(Some("main\ndev")), vec!["main", "dev"]);
    assert!(branches_named(None).is_empty());
}

#[test]
fn only_reading_commands_run_side_by_side() {
    for kind in [
        CommandKind::Status,
        CommandKind::Complete,
        CommandKind::Cd,
        CommandKind::Pools,
        CommandKind::Build,
        CommandKind::Completions,
    ] {
        assert!(!needs_lock(kind));
    }
    for kind in [
        CommandKind::Init,
        CommandKind::Checkout,
        CommandKind::Drop,
        CommandKind::Pr,
        CommandKind::Sync,
        CommandKind::New,
        CommandKind::RmPool,
        CommandKind::Migrate,
        CommandKind::Pin,
        CommandKind::Unpin,
        CommandKind::Doctor,
    ] {
        assert!(needs_lock(kind));
    }
}

#[test]
fn a_refresh_remembers_the_branches_of_fetched_pools() {
    let c = a_config(&[("p", None), ("q", None), ("r", None)]);
    let s = a_state(vec![
        ("orphan", vec![("o", a_clone("/o", None, 1, false))]),
        (
            "p",
            vec![
                ("p1", a_clone("/p1", None, 1, false)),
                ("p2", a_clone("/p2", None, 1, false)),
            ],
        ),
        ("q", vec![("q1", a_clone("/q1", None, 1, false))]),
        ("r", vec![]),
    ]);
    let mut cache = BranchCache::new();
    for pool in ["orphan", "p", "q", "r"] {
        cache.pools.insert(pool.to_string(), BranchList { branches: vec!["old".to_string()] });
    }
    let line = "origin/new\n".to_string();
    let results = vec![
        PoolSync { fetched: vec![], output: Some(line.clone()) },
        PoolSync { fetched: vec![false, true], output: Some(line.clone()) },
        PoolSync { fetched: vec![true], output: None },
        PoolSync { fetched: vec![], output: Some(line.clone()) },
    ];
    assert!(!sync(&c, &s, &results, &mut cache));
    assert_eq!(cache.pools.get("p").unwrap().branches, vec!["new"]);
    for pool in ["orphan", "q", "r"] {
        assert_eq!(cache.pools.get(pool).unwrap().branches, vec!["old"]);
    }
    assert_eq!(branch_clone(&vec![false, false, true, true]), Some(2));
    assert_eq!(branch_clone(&vec![false]), None);
    assert_eq!(fetch_message(None), "ok");
    assert_eq!(fetch_message(Some("gone")), "error: gone");
    assert_eq!(sync_failure(), "Some fetches failed (see errors above)");
    assert_eq!(cached_message("p", "origin/a\norigin/b\n"), "  Cached 2 branches for p");
}

#[test]
fn development_configuration_comes_from_another_clone() {
    let files = vec!["AGENTS.md".to_string(), "NOTES.md".to_string()];
    let dirs = dev_config_dirs();
    assert_eq!(dirs, vec![".cargo"]);
    assert_eq!(
        dev_config_places("/c", &files, &dirs),
        vec!["/c/AGENTS.md", "/c/NOTES.md", "/c/.cargo"]
    );
    let tasks = copy_dev_configs("/from", "/to", &files, &dirs);
    assert_eq!(tasks.len(), 3);
    assert_eq!(tasks[1].from, "/from/NOTES.md");
    assert_eq!(tasks[1].to, "/to/NOTES.md");
    assert!(!tasks[0].directory && !tasks[1].directory && tasks[2].directory);
    assert_eq!(tasks[0].message(), "  Copied AGENTS.md");
    assert_eq!(tasks[2].message(), "  Copied .cargo/");

    let pool = a_pool(vec![
        ("a", a_clone("/a", None, 1, false)),
        ("b", a_clone("/b/", None, 1, false)),
        ("c", a_clone("/c", None, 1, false)),
    ]);
    let mut answers = vec![None; 3];
    assert_eq!(find_dev_config_source(&pool, "/a", &answers), SourceSearch::Look(1));
    answers[1] = Some(false);
    assert_eq!(find_dev_config_source(&pool, "/a", &answers), SourceSearch::Look(2));
    answers[2] = Some(true);
    assert_eq!(find_dev_config_source(&pool, "/a", &answers), SourceSearch::Use(2));
    answers[2] = Some(false);
    assert_eq!(find_dev_config_source(&pool, "/a", &answers), SourceSearch::Nowhere);
    assert_eq!(find_dev_config_source(&pool, "/b", &answers), SourceSearch::Look(0));
}

#[test]
fn a_checkout_takes_these_steps() {
    let s = a_state(vec![(
        "p",
        vec![
            ("a", a_clone("/a", Some("x"), 1, false)),
            ("b", a_clone("/b", None, 1, false)),
        ],
    )]);
    let mut c = Checkout::branch(s, "p", "main", false);
    let script: Vec<(Step, Event)> = vec![
        (Step::ProbeClean(1), Event::Answer(true)),
        (Step::ProbeConfig { clone: 1, other: 0 }, Event::Answer(true)),
        (Step::Git(Task::Fetch, 1), Event::Answer(true)),
        (Step::Git(Task::Switch, 1), Event::Answer(false)),
        (Step::Git(Task::Create, 1), Event::Answer(true)),
        (Step::StampTime(1), Event::Time(moment(50))),
        (Step::StampSave(1), Event::Done),
        (Step::Git(Task::Modules, 1), Event::Answer(true)),
        (Step::CopyConfig { from: 0, to: 1 }, Event::Done),
    ];
    for (step, event) in script {
        assert_eq!(c.step(), step);
        c = c.advance(event);
    }
    assert_eq!(c.step(), Step::Finish(1));
    assert_eq!(c.task_args(Task::Create), vec!["checkout", "-b", "main", "origin/main"]);
    let b = c.pool().clones.get("b").unwrap();
    assert_eq!(b.assigned_branch.as_deref(), Some("main"));
    assert_eq!(b.last_used, moment(50));
    assert_eq!(c.pool().clones.get("a").unwrap().assigned_branch.as_deref(), Some("x"));
}

#[test]
fn a_clone_keeps_its_branch_when_its_submodules_fail() {
    let s = a_state(vec![("p", vec![("a", a_clone("/a", None, 1, false))])]);
    let mut c = Checkout::branch(s, "p", "main", false);
    for event in [
        Event::Answer(true),
        Event::Answer(true),
        Event::Answer(true),
        Event::Answer(true),
        Event::Time(moment(9)),
        Event::Done,
    ] {
        c = c.advance(event);
    }
    assert_eq!(c.step(), Step::Git(Task::Modules, 0));
    c = c.advance(Event::Answer(false));
    assert_eq!(c.step(), Step::Fail(Failure::Git(Task::Modules)));
    assert_eq!(
        c.failure_message(Failure::Git(Task::Modules)),
        "git submodule update --init --recursive failed"
    );
    assert_eq!(c.pool().clones.get("a").unwrap().assigned_branch.as_deref(), Some("main"));
}

#[test]
fn a_clone_that_has_the_branch_is_refreshed_whatever_fails() {
    let s = a_state(vec![("p", vec![("a", a_clone("/a", Some("main"), 1, false))])]);
    let mut c = Checkout::branch(s, "p", "main", false);
    let script: Vec<(Step, Event)> = vec![
        (Step::ReadBranch(0), Event::Branch(Some("main".to_string()))),
        (Step::Git(Task::Refetch, 0), Event::Answer(false)),
        (Step::Git(Task::Repull, 0), Event::Answer(false)),
        (Step::Git(Task::Remodule, 0), Event::Answer(false)),
        (Step::TouchTime(0), Event::Time(moment(7))),
        (Step::TouchSave(0), Event::Done),
    ];
    for (step, event) in script {
        assert_eq!(c.step(), step);
        c = c.advance(event);
    }
    assert_eq!(c.step(), Step::Finish(0));
    assert_eq!(c.state().pools.get("p").unwrap().clones.value(0).last_used, moment(7));
}

#[test]
fn a_pull_request_from_a_fork_is_fetched_by_its_number() {
    let s = a_state(vec![("p", vec![("a", a_clone("/a", Some("x"), 1, false))])]);
    let mut c = Checkout::pull_request(s, "p", 42);
    assert_eq!(c.step(), Step::ProbeClean(0));
    c = c.advance(Event::Answer(true));
    assert_eq!(c.step(), Step::Git(Task::Fetch, 0));
    assert_eq!(c.task_args(Task::Fetch), vec!["fetch", "origin", "refs/pull/42/head:pr/42"]);
    c = c.advance(Event::Answer(true));
    assert_eq!(c.step(), Step::Git(Task::Switch, 0));
    assert_eq!(c.task_args(Task::Switch), vec!["checkout", "pr/42"]);
    let failed = c.advance(Event::Answer(false));
    assert_eq!(failed.step(), Step::Fail(Failure::Git(Task::Switch)));

    let s = a_state(vec![("p", vec![("a", a_clone("/a", Some("pr/42"), 1, false))])]);
    let c = Checkout::pull_request(s, "p", 42);
    assert_eq!(c.step(), Step::TouchTime(0));
}

#[test]
fn the_user_is_told_what_a_checkout_does() {
    let state = || {
        a_state(vec![(
            "p",
            vec![
                ("a", a_clone("/a", Some("main"), 1, false)),
                ("b", a_clone("/b", Some("pr/3"), 2, false)),
            ],
        )])
    };
    assert_eq!(find_assigned(state().pools.get("p").unwrap(), "pr/3"), Some(1));
    assert_eq!(find_assigned(state().pools.get("p").unwrap(), "x"), None);
    let told = |c: &Checkout| c.announcement();

    let c = Checkout::branch(state(), "p", "main", false);
    assert!(told(&c).is_empty());
    assert_eq!(
        c.remark_on_branch(0, &Some("main".to_string())),
        "Branch 'main' already on clone: a"
    );
    assert_eq!(
        c.remark_on_branch(0, &Some("x".to_string())),
        "Clone 'a' was recorded as 'main' but is actually on 'x'. Correcting state."
    );
    assert_eq!(
        c.remark_on_branch(0, &None),
        "Clone 'a' was recorded as 'main' but is actually on 'unknown'. Correcting state."
    );
    let c = c.advance(Event::Branch(Some("main".to_string())));
    assert_eq!(told(&c), vec!["Pulling latest..."]);
    let c = c.advance(Event::Answer(true)).advance(Event::Answer(true));
    assert_eq!(told(&c), vec!["Updating submodules..."]);

    let c = Checkout::branch(state(), "p", "dev", false).advance(Event::Answer(true));
    assert_eq!(c.step(), Step::ProbeConfig { clone: 0, other: 1 });
    let c = c.advance(Event::Answer(true));
    assert_eq!(told(&c), vec!["Using clone: a", "Fetching..."]);
    let c = c.advance(Event::Answer(true));
    assert_eq!(told(&c), vec!["Checking out dev..."]);
    let c = c.advance(Event::Answer(true));
    assert_eq!(c.step(), Step::Git(Task::Pull, 0));
    assert!(told(&c).is_empty());
    let c = c
        .advance(Event::Answer(false))
        .advance(Event::Time(moment(3)))
        .advance(Event::Done);
    assert_eq!(told(&c), vec!["Updating submodules..."]);
    let c = c.advance(Event::Answer(true));
    assert_eq!(told(&c), vec!["Copying dev configs from /b..."]);

    let c = Checkout::pull_request(state(), "p", 3);
    assert_eq!(told(&c), vec!["PR #3 already on clone: b"]);
    let c = Checkout::pull_request(state(), "p", 4).advance(Event::Answer(true));
    let c = c.advance(Event::Answer(false));
    assert_eq!(told(&c), vec!["Using clone: a", "Fetching PR #4..."]);
    let c = c.advance(Event::Answer(true));
    assert!(told(&c).is_empty());

    assert_eq!(task_warning(Task::Refetch, "e").as_deref(), Some("Warning: fetch failed: e"));
    assert_eq!(task_warning(Task::Repull, "e").as_deref(), Some("Warning: pull failed: e"));
    assert_eq!(
        task_warning(Task::Remodule, "e").as_deref(),
        Some("Warning: submodule update failed: e")
    );
    assert_eq!(task_warning(Task::Fetch, "e"), None);
}

#[test]
fn github_is_asked_for_a_pull_request() {
    assert_eq!(
        request_args("o/r", 7, None),
        vec![
            "-s",
            "-L",
            "--fail",
            "-H",
            "Accept: application/vnd.github+json",
            "https://api.github.com/repos/o/r/pulls/7",
        ]
    );
    assert_eq!(
        request_args("o/r", 7, Some("T"))[5..],
        ["-H", "Authorization: Bearer T", "https://api.github.com/repos/o/r/pulls/7"]
    );
    let c = a_config(&[("p", Some("o/r")), ("q", None)]);
    assert_eq!(
        pull_request_request(&c, "p", 7, None).ok().unwrap(),
        request_args("o/r", 7, None)
    );
    let e = pull_request_request(&c, "q", 7, None).err().unwrap();
    assert_eq!(e.message("q", 7), "No GitHub repo configured for pool 'q'");
}

fn reply(text: &str) -> Result<PullRequest, PrError> {
    read_reply(true, text.as_bytes())
}

#[test]
fn the_answer_of_github_is_read() {
    let own = reply(
        r#"{"head": {"ref": "topic", "repo": {"full_name": "o/r"}}, "base": {"repo": {"full_name": "o/r"}}}"#,
    )
    .ok()
    .unwrap();
    assert_eq!(own.branch, "topic");
    assert!(!own.fork);
    assert_eq!(own.message(7), "PR #7 is on branch: topic");
    let fork = reply(
        r#"{"head": {"ref": "topic", "repo": {"full_name": "x/r"}}, "base": {"repo": {"full_name": "o/r"}}}"#,
    )
    .ok()
    .unwrap();
    assert!(fork.fork);
    assert_eq!(fork.message(7), "PR #7 is a fork PR on branch: topic");
    let gone = reply(r#"{"head": {"ref": "topic", "repo": null}, "base": {"repo": {"full_name": "o/r"}}}"#)
        .ok()
        .unwrap();
    assert!(gone.fork);
    let bare = reply(r#"{"head": {"ref": "topic"}}"#).ok().unwrap();
    assert!(!bare.fork);

    let refused = reply(r#"{"message": "Not Found", "head": {"ref": "topic"}}"#).err().unwrap();
    assert_eq!(refused.message("p", 7), "GitHub API error for PR #7: Not Found");
    let nameless = reply(r#"{"head": {"ref": 3}}"#).err().unwrap();
    assert!(matches!(nameless, PrError::NoBranch));
    assert_eq!(nameless.message("p", 7), "Could not find branch name in PR response");
    let listed = reply("[1, 2]").err().unwrap();
    assert!(matches!(listed, PrError::NoBranch));
    let silent = reply(r#"{"message": 5, "head": {"ref": "b"}}"#).ok().unwrap();
    assert_eq!(silent.branch, "b");
    let broken = reply("{").err().unwrap();
    assert!(matches!(&broken, PrError::Malformed(_)));
    assert_eq!(broken.message("p", 7), "EOF while parsing an object at line 1 column 1");
    let failed = read_reply(false, b"{}").err().unwrap();
    assert_eq!(
        failed.message("p", 7),
        "Failed to fetch PR #7 (HTTP error). Check that the PR exists and the repo is correct."
    );
}

#[test]
fn numbers_and_lists_are_compared_as_documents() {
    for (head, base, fork) in [
        ("1", "1", false),
        ("1", "2", true),
        ("1", "1.0", true),
        ("0.0", "-0.0", false),
        ("[1, \"a\"]", "[1, \"a\"]", false),
        ("[1, \"a\"]", "[1, \"b\"]", true),
        ("{\"a\": 1, \"b\": 2}", "{\"b\": 2, \"a\": 1}", false),
        ("true", "false", true),
        ("null", "\"o/r\"", true),
        ("null", "null", false),
    ] {
        let text = format!(
            r#"{{"head": {{"ref": "t", "repo": {{"full_name": {}}}}}, "base": {{"repo": {{"full_name": {}}}}}}}"#,
            head, base
        );
        assert_eq!(reply(&text).ok().unwrap().fork, fork, "{} {}", head, base);
    }
}

#[test]
fn an_answer_is_judged_by_what_is_in_it() {
    let pr = judge_answer(None, Some("b"), true).ok().unwrap();
    assert_eq!((pr.branch.as_str(), pr.fork), ("b", false));
    assert!(judge_answer(None, Some("b"), false).ok().unwrap().fork);
    assert!(matches!(judge_answer(None, None, true), Err(PrError::NoBranch)));
    assert!(matches!(
        judge_answer(Some("no"), Some("b"), true),
        Err(PrError::Refused(m)) if m == "no"
    ));
    let doc = serde_json::Value::Null;
    assert!(matches!(read_document(&doc), Err(PrError::NoBranch)));
}

#[test]
fn a_pull_request_is_checked_out_by_branch_unless_it_is_from_a_fork() {
    let state = || a_state(vec![("p", vec![("a", a_clone("/a", None, 1, false))])]);
    let own = PullRequest { branch: "topic".to_string(), fork: false };
    let c = own.checkout(state(), "p", 9);
    assert_eq!(c.task_args(Task::Switch), vec!["checkout", "topic"]);
    assert_eq!(c.task_args(Task::Fetch), vec!["fetch", "origin"]);
    let fork = PullRequest { branch: "topic".to_string(), fork: true };
    let c = fork.checkout(state(), "p", 9);
    assert_eq!(c.task_args(Task::Switch), vec!["checkout", "pr/9"]);
    assert_eq!(c.task_args(Task::Fetch), vec!["fetch", "origin", "refs/pull/9/head:pr/9"]);
}

#[test]
fn shells_are_given_their_scripts() {
    assert_eq!(completions("bash"), Ok(bash_completion_script()));
    assert_eq!(completions("zsh"), Ok(zsh_completion_script()));
    assert_eq!(completions("fish"), Ok(fish_completion_script()));
    assert_eq!(
        completions("tcsh"),
        Err("Unknown shell 'tcsh'. Supported: bash, zsh, fish".to_string())
    );
    let bash = bash_completion_script();
    assert!(bash.starts_with("_rpool() {\n"));
    assert!(bash.ends_with("complete -F _rpool rpool\ncomplete -F _rpool rp\n"));
    let fish = fish_completion_script();
    let zsh = zsh_completion_script();
    assert!(zsh.starts_with("#compdef rpool rp\n"));
    assert!(zsh.ends_with("_rpool \"$@\"\n"));
    for word in [
        "init", "checkout", "status", "drop", "pr", "sync", "new", "pools", "rm-pool", "build",
        "cd", "migrate", "pin", "unpin", "doctor", "completions",
    ] {
        assert!(bash.contains(word), "{}", word);
        assert!(zsh.contains(&format!("'{}:", word)), "{}", word);
        let offered = fish.lines().any(|l| {
            l.contains("-n __rpool_no_subcmd -a") && l.contains(word)
        });
        assert!(offered, "{}", word);
    }
    for (subcmd, flags) in [
        ("init", "-r --repo --clones-root -n --name --build-cmd"),
        ("checkout|ck", "--no-submodules"),
        ("migrate", "--keep --clones-root"),
        ("doctor", "--fix"),
    ] {
        let of_bash = bash.lines().map(|l| l.trim()).any(|l| {
            l.starts_with(&format!("{})", subcmd)) && l.contains(&format!("$flags {}\"", flags))
        });
        assert!(of_bash, "{}", subcmd);
        assert!(zsh.contains(&format!("{}) flags+=({}) ;;", subcmd, flags)), "{}", subcmd);
        let using = format!("'__rpool_using {}'", subcmd.replace('|', " "));
        for flag in flags.split(' ') {
            let option = match flag.strip_prefix("--") {
                Some(long) => format!("-l {}", long),
                None => format!("-s {}", flag.trim_start_matches('-')),
            };
            let of_fish = fish.lines().any(|l| l.contains(&using) && l.contains(&option));
            assert!(of_fish, "{} {}", subcmd, flag);
        }
    }
    assert!(bash.contains("local flags=\"-p --pool\""));
    assert!(zsh.contains("flags=(-p --pool)"));
    assert!(fish.contains("-s p -l pool -x -a '(rpool complete pools 2>/dev/null)'"));
    assert!(fish.contains("for cmd in rpool rp\n"));
    assert!(fish.contains("'__rpool_using checkout ck' -a '(__rpool_candidates branches)'"));
    assert!(fish.contains("'__rpool_using cd' -a '(rpool complete clones 2>/dev/null)'"));
    assert!(fish.contains("'__rpool_using drop pin unpin' -a '(__rpool_candidates clones)'"));
    assert_eq!(shell_command(false, "make all"), vec!["sh", "-c", "make all"]);
    assert_eq!(shell_command(true, "make all"), vec!["cmd", "/C", "make all"]);
}
