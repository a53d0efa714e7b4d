//! Whole stories, played against a small model of a disk with clones on it.

use rpool::checkout::{Checkout, Event, Step, Task};
use rpool::clones::{cd, drop_clone, rm_pool, set_pinned};
use rpool::doctor::{doctor, is_examined, CloneFacts};
use rpool::init::{init_summary, pool_name_for, register, set_up_pool, FoundRepo, InitError};
use rpool::model::{BranchCache, CloneState, Config, State, Timestamp};
use rpool::names::validate_name;
use rpool::newclone::{plan_clone, record_clone, CloneOutcome};
use rpool::path::join_path;
use rpool::resolve::resolve_pool;
use rpool::status::{list_pools, status, Status, StatusFacts};
use rpool::sync::{branch_clone, fetch_message, sync, PoolSync};

const ORIGIN: &str = "/tmp/world/origin.git";
const ROOT: &str = "/tmp/world/home/rppool";
const CWD: &str = "/tmp/world/home";

/// A clone on the disk.
struct Disk {
    path: String,
    branch: String,
    local: Vec<String>,
    dirty: bool,
}

struct World {
    config: Config,
    state: Option<State>,
    cache: BranchCache,
    disk: Vec<Disk>,
    remote: Vec<String>,
    clock: i64,
    saves: usize,
}

impl World {
    fn new() -> World {
        World {
            config: Config::initial(Some("/tmp/world/home")),
            state: Some(State::new()),
            cache: BranchCache::new(),
            disk: Vec::new(),
            remote: vec!["main".to_string(), "feature-a".to_string(), "feature-b".to_string()],
            clock: 1_000,
            saves: 0,
        }
    }

    fn now(&mut self) -> Timestamp {
        self.clock += 1;
        Timestamp { seconds: self.clock, nanos: 0 }
    }

    fn state(&self) -> &State {
        self.state.as_ref().unwrap()
    }

    fn state_mut(&mut self) -> &mut State {
        self.state.as_mut().unwrap()
    }

    fn clone_record(&self, pool: &str, clone: &str) -> &CloneState {
        self.state().pools.get(pool).unwrap().clones.get(clone).unwrap()
    }

    fn at(&mut self, path: &str) -> &mut Disk {
        self.disk.iter_mut().find(|d| d.path == path).unwrap()
    }

    fn put_clone(&mut self, path: &str) {
        self.disk.push(Disk {
            path: path.to_string(),
            branch: "main".to_string(),
            local: vec!["main".to_string()],
            dirty: false,
        });
    }

    fn init(&mut self, name: &str) -> Result<usize, InitError> {
        let name = pool_name_for(ORIGIN, Some(name));
        set_up_pool(&mut self.config, name.as_str(), ORIGIN, Some(ROOT), None)?;
        let dir = join_path(ROOT, name.as_str());
        let mut repos = Vec::new();
        let paths: Vec<(String, String)> =
            self.disk.iter().map(|d| (d.path.clone(), d.branch.clone())).collect();
        for (path, branch) in paths {
            if path.starts_with(dir.as_str()) {
                repos.push(FoundRepo {
                    path,
                    url: Some(ORIGIN.to_string()),
                    branch: Some(branch),
                    seen: self.now(),
                    current: false,
                });
            }
        }
        register(self.state_mut(), name.as_str(), ORIGIN, &repos);
        Ok(repos.len())
    }

    fn pool_with_clones(&mut self, pool: &str, n: usize) -> Vec<String> {
        let mut names = Vec::new();
        for i in 1..=n {
            let name = format!("{}-{}", pool, i);
            self.put_clone(join_path(join_path(ROOT, pool).as_str(), name.as_str()).as_str());
            names.push(name);
        }
        assert_eq!(self.init(pool).unwrap(), n);
        names
    }

    fn run(&mut self, task: Task, args: &[String], path: &str) -> bool {
        let remote = self.remote.clone();
        let disk = self.at(path);
        match task {
            Task::Switch => {
                let branch = args[1].clone();
                if disk.local.contains(&branch) {
                    disk.branch = branch;
                    true
                } else {
                    false
                }
            }
            Task::Create => {
                let branch = args[2].clone();
                assert_eq!(args[3], format!("origin/{}", branch));
                if remote.contains(&branch) {
                    disk.local.push(branch.clone());
                    disk.branch = branch;
                    true
                } else {
                    false
                }
            }
            _ => true,
        }
    }

    fn checkout(&mut self, pool: &str, branch: &str) -> Result<String, String> {
        let state = self.state.take().unwrap();
        let mut c = Checkout::branch(state, pool, branch, true);
        loop {
            let event = match c.step() {
                Step::ReadBranch(i) => {
                    let path = c.pool().clones.value(i).path.clone();
                    Event::Branch(Some(self.at(path.as_str()).branch.clone()))
                }
                Step::ProbeClean(i) => {
                    let path = c.pool().clones.value(i).path.clone();
                    Event::Answer(!self.at(path.as_str()).dirty)
                }
                Step::ProbeConfig { .. } => Event::Answer(false),
                Step::Git(task, i) => {
                    let path = c.pool().clones.value(i).path.clone();
                    let args = c.task_args(task);
                    Event::Answer(self.run(task, &args, path.as_str()))
                }
                Step::TouchTime(_) | Step::StampTime(_) => Event::Time(self.now()),
                Step::TouchSave(_) | Step::StampSave(_) => {
                    self.saves += 1;
                    Event::Done
                }
                Step::CopyConfig { .. } => Event::Done,
                Step::Finish(i) => {
                    let path = c.pool().clones.value(i).path.clone();
                    self.state = Some(copy_state(c.state()));
                    return Ok(path);
                }
                Step::Fail(f) => {
                    let message = c.failure_message(f);
                    self.state = Some(copy_state(c.state()));
                    return Err(message);
                }
            };
            c = c.advance(event);
        }
    }

    fn facts(&self, scope: Option<&str>) -> Vec<Vec<CloneFacts>> {
        let mut all = Vec::new();
        let state = self.state();
        for p in 0..state.pools.len() {
            let mut some = Vec::new();
            if is_examined(&self.config, scope, state.pools.name(p)) {
                let clones = &state.pools.value(p).clones;
                for c in 0..clones.len() {
                    let path = clones.value(c).path.as_str();
                    some.push(match self.disk.iter().find(|d| d.path == path) {
                        Some(d) => CloneFacts::Present {
                            branch: Ok(d.branch.clone()),
                            remote: Ok(ORIGIN.to_string()),
                        },
                        None => CloneFacts::Missing,
                    });
                }
            }
            all.push(some);
        }
        all
    }

    fn doctor(&mut self, fix: bool, scope: Option<&str>) -> (Vec<String>, bool) {
        let facts = self.facts(scope);
        let mut state = self.state.take().unwrap();
        let report = doctor(&self.config, &mut state, &facts, fix, scope).unwrap();
        self.state = Some(state);
        let mut lines = report.lines;
        lines.extend(report.closing);
        (lines, report.changed)
    }

    fn status(&self, only: Option<&str>) -> Vec<String> {
        let mut all = Vec::new();
        let state = self.state();
        for p in 0..state.pools.len() {
            let clones = &state.pools.value(p).clones;
            let mut some = Vec::new();
            for c in 0..clones.len() {
                let path = clones.value(c).path.as_str();
                let disk = self.disk.iter().find(|d| d.path == path);
                some.push(StatusFacts {
                    branch: disk.map(|d| d.branch.clone()),
                    dirty: disk.map(|d| d.dirty),
                });
            }
            all.push(some);
        }
        match status(&self.config, state, &all, only) {
            Status::Lines(lines) => lines,
            _ => panic!("no status"),
        }
    }
}

fn copy_state(state: &State) -> State {
    let mut out = State::new();
    for p in 0..state.pools.len() {
        let name = state.pools.name(p).clone();
        let mut pool = rpool::model::PoolState::new();
        let clones = &state.pools.value(p).clones;
        for c in 0..clones.len() {
            let r = clones.value(c);
            pool.clones.insert(
                clones.name(c).clone(),
                CloneState {
                    path: r.path.clone(),
                    assigned_branch: r.assigned_branch.clone(),
                    last_used: r.last_used,
                    pinned: r.pinned,
                },
            );
        }
        out.pools.insert(name, pool);
    }
    out
}

#[test]
fn test_init_from_local_repo() {
    let mut w = World::new();
    let clones = w.pool_with_clones("testrepo", 1);
    assert!(w.config.pools.contains("testrepo"));
    assert_eq!(w.config.pools.get("testrepo").unwrap().repo_url, ORIGIN);
    assert_eq!(w.config.pools.get("testrepo").unwrap().build_command, "cargo build");
    assert!(w.state().pools.contains("testrepo"));
    assert!(w.state().pools.get("testrepo").unwrap().clones.contains(&clones[0]));
    assert_eq!(w.config.clones_root, ROOT);
    assert_eq!(
        init_summary(&w.config, "testrepo", 1),
        vec![
            "Initialized pool 'testrepo'".to_string(),
            format!("  Clones root: {}", ROOT),
            format!("  Pool directory: {}/testrepo", ROOT),
            "  Build command: cargo build".to_string(),
            "  Clones found: 1".to_string(),
        ]
    );
}

#[test]
fn test_checkout_and_status() {
    let mut w = World::new();
    w.pool_with_clones("testrepo", 1);
    let path = w.checkout("testrepo", "feature-a").unwrap();
    assert!(!path.is_empty());
    assert_eq!(w.at(&path).branch, "feature-a");
    let shown = w.status(Some("testrepo"));
    assert!(shown.iter().any(|l| l.contains("feature-a")));
}

#[test]
fn test_drop_clone() {
    let mut w = World::new();
    let clones = w.pool_with_clones("testrepo", 1);
    w.checkout("testrepo", "feature-a").unwrap();
    assert!(w.clone_record("testrepo", &clones[0]).assigned_branch.is_some());
    let dropped = drop_clone(w.state_mut(), "testrepo", Some(&clones[0]), CWD).unwrap();
    assert_eq!(dropped.message(), "Dropped assignment: testrepo-1 -> feature-a");
    assert!(w.clone_record("testrepo", &clones[0]).assigned_branch.is_none());
}

#[test]
fn test_new_clone() {
    let mut w = World::new();
    w.pool_with_clones("testrepo", 1);
    let plan = plan_clone(&w.config, w.state(), "testrepo", None).ok().unwrap();
    assert_eq!(plan.name, "testrepo-2");
    assert!(!plan.path.is_empty());
    w.put_clone(&plan.path);
    let now = w.now();
    record_clone(w.state_mut(), "testrepo", &plan, CloneOutcome::Made, now).unwrap();
    assert!(w.state().pools.get("testrepo").unwrap().clones.len() >= 2);
    assert!(w.clone_record("testrepo", "testrepo-2").assigned_branch.is_none());
}

#[test]
fn test_cd_outputs_path() {
    let mut w = World::new();
    let clones = w.pool_with_clones("testrepo", 1);
    let checked_out = w.checkout("testrepo", "feature-a").unwrap();
    let path = cd(w.state(), &clones[0], Some("testrepo")).unwrap();
    assert!(!path.is_empty());
    assert_eq!(path, checked_out);
}

#[test]
fn test_pools_list() {
    let mut w = World::new();
    w.init("pool-alpha").unwrap();
    w.init("pool-beta").unwrap();
    let shown = list_pools(&w.config).unwrap();
    assert!(shown.iter().any(|l| l.contains("pool-alpha")));
    assert!(shown.iter().any(|l| l.contains("pool-beta")));
}

#[test]
fn test_rm_pool() {
    let mut w = World::new();
    w.pool_with_clones("testrepo", 1);
    assert!(w.config.pools.contains("testrepo"));
    let mut state = w.state.take().unwrap();
    assert!(rm_pool(&mut w.config, &mut state, &mut w.cache, "testrepo"));
    assert!(!w.config.pools.contains("testrepo"));
    assert!(!state.pools.contains("testrepo"));
}

#[test]
fn test_pin_unpin() {
    let mut w = World::new();
    let clones = w.pool_with_clones("testrepo", 2);
    set_pinned(w.state_mut(), "testrepo", Some(&clones[0]), CWD, true).unwrap();
    assert!(w.clone_record("testrepo", &clones[0]).pinned);
    let path = w.checkout("testrepo", "feature-a").unwrap();
    let pool = w.state().pools.get("testrepo").unwrap();
    let assigned: Vec<String> = (0..pool.clones.len())
        .filter(|i| pool.clones.value(*i).assigned_branch.as_deref() == Some("feature-a"))
        .map(|i| pool.clones.name(i).clone())
        .collect();
    assert_eq!(assigned, vec![clones[1].clone()]);
    assert_eq!(path, w.clone_record("testrepo", &clones[1]).path);
    set_pinned(w.state_mut(), "testrepo", Some(&clones[0]), CWD, false).unwrap();
    assert!(!w.clone_record("testrepo", &clones[0]).pinned);
}

#[test]
fn test_doctor_clean() {
    let mut w = World::new();
    w.pool_with_clones("testrepo", 1);
    let (lines, changed) = w.doctor(false, Some("testrepo"));
    assert_eq!(lines, vec!["".to_string(), "No issues found.".to_string()]);
    assert!(!changed);
}

#[test]
fn test_doctor_detects_branch_mismatch() {
    let mut w = World::new();
    let clones = w.pool_with_clones("testrepo", 1);
    let path = w.checkout("testrepo", "feature-a").unwrap();
    w.at(&path).branch = "feature-b".to_string();
    assert_eq!(
        w.clone_record("testrepo", &clones[0]).assigned_branch.as_deref(),
        Some("feature-a")
    );
    let (lines, changed) = w.doctor(false, Some("testrepo"));
    assert!(lines.iter().any(|l| l.contains("branch mismatch")));
    assert!(!changed);
    assert_eq!(
        w.clone_record("testrepo", &clones[0]).assigned_branch.as_deref(),
        Some("feature-a")
    );
    let (lines, changed) = w.doctor(true, Some("testrepo"));
    assert!(lines.iter().any(|l| l.contains("FIXED")));
    assert!(changed);
    assert_eq!(
        w.clone_record("testrepo", &clones[0]).assigned_branch.as_deref(),
        Some("feature-b")
    );
    let (lines, changed) = w.doctor(true, Some("testrepo"));
    assert_eq!(lines, vec!["".to_string(), "No issues found.".to_string()]);
    assert!(!changed);
}

#[test]
fn test_validate_name_rejects_bad_names() {
    let e = validate_name("bad name", "Pool").unwrap_err();
    assert!(e.message.contains("invalid character"));
    let e = validate_name("foo/bar", "Pool").unwrap_err();
    assert!(e.message.contains("invalid character"));
    let e = validate_name("-badname", "Pool").unwrap_err();
    assert!(e.message.contains("must not start with '-'"));
    let e = validate_name("..", "Pool").unwrap_err();
    assert!(e.message.contains("cannot be"));
    assert!(validate_name("foo*bar", "Pool").is_err());

    let mut w = World::new();
    for name in ["bad name", "foo/bar", "-badname", "..", "foo*bar"] {
        assert!(matches!(w.init(name), Err(InitError::BadName(_))));
        assert!(w.config.pools.is_empty());
    }
}

#[test]
fn test_checkout_stale_state() {
    let mut w = World::new();
    w.pool_with_clones("testrepo", 2);
    let first = w.checkout("testrepo", "feature-a").unwrap();
    let pool = w.state().pools.get("testrepo").unwrap();
    let i = (0..pool.clones.len())
        .find(|i| pool.clones.value(*i).assigned_branch.as_deref() == Some("feature-a"))
        .unwrap();
    let assigned = pool.clones.name(i).clone();
    w.at(&first).branch = "feature-b".to_string();
    let second = w.checkout("testrepo", "feature-a").unwrap();
    assert_eq!(w.at(&second).branch, "feature-a");
    assert_ne!(
        w.clone_record("testrepo", &assigned).assigned_branch.as_deref(),
        Some("feature-a")
    );
    assert_eq!(
        w.clone_record("testrepo", &assigned).assigned_branch.as_deref(),
        Some("feature-b")
    );
}

#[test]
fn test_sync_fetches_all() {
    let mut w = World::new();
    w.pool_with_clones("testrepo", 1);
    let reported = fetch_message(None);
    assert!(reported.contains("ok"));
    let results = vec![PoolSync {
        fetched: vec![true],
        output: Some("origin/HEAD\norigin/main\norigin/feature-a\n".to_string()),
    }];
    assert_eq!(branch_clone(&results[0].fetched), Some(0));
    let state = w.state.take().unwrap();
    assert!(sync(&w.config, &state, &results, &mut w.cache));
    assert_eq!(w.cache.pools.get("testrepo").unwrap().branches, vec!["main", "feature-a"]);
}

#[test]
fn test_init_duplicate_pool_fails() {
    let mut w = World::new();
    w.pool_with_clones("testrepo", 1);
    let e = w.init("testrepo").unwrap_err();
    assert_eq!(e, InitError::AlreadyExists);
    assert!(e.message("testrepo").contains("already exists"));
}

#[test]
fn test_checkout_creates_tracking_branch() {
    let mut w = World::new();
    w.pool_with_clones("testrepo", 1);
    let path = w.checkout("testrepo", "feature-a").unwrap();
    assert_eq!(w.at(&path).branch, "feature-a");
    assert!(w.at(&path).local.contains(&"feature-a".to_string()));
}

#[test]
fn test_new_with_custom_name() {
    let mut w = World::new();
    w.pool_with_clones("testrepo", 1);
    let plan = plan_clone(&w.config, w.state(), "testrepo", Some("my-custom-clone")).ok().unwrap();
    let now = w.now();
    record_clone(w.state_mut(), "testrepo", &plan, CloneOutcome::Made, now).unwrap();
    assert!(w.state().pools.get("testrepo").unwrap().clones.contains("my-custom-clone"));
}

#[test]
fn test_drop_without_assignment() {
    let mut w = World::new();
    let clones = w.pool_with_clones("testrepo", 1);
    drop_clone(w.state_mut(), "testrepo", Some(&clones[0]), CWD).unwrap();
    let again = drop_clone(w.state_mut(), "testrepo", Some(&clones[0]), CWD).unwrap();
    assert!(again.message().contains("not assigned"));
}

#[test]
fn a_branch_that_exists_nowhere_fails_and_is_not_recorded() {
    let mut w = World::new();
    w.pool_with_clones("testrepo", 1);
    let e = w.checkout("testrepo", "nowhere").unwrap_err();
    assert_eq!(e, "git checkout -b nowhere origin/nowhere failed");
    assert_eq!(
        w.clone_record("testrepo", "testrepo-1").assigned_branch.as_deref(),
        Some("main")
    );
    assert_eq!(w.saves, 0);
}

#[test]
fn checking_out_twice_gives_the_same_clone_and_saves_its_use() {
    let mut w = World::new();
    w.pool_with_clones("testrepo", 3);
    let first = w.checkout("testrepo", "feature-a").unwrap();
    let used = w.clone_record("testrepo", "testrepo-1").last_used;
    w.checkout("testrepo", "feature-b").unwrap();
    let again = w.checkout("testrepo", "feature-a").unwrap();
    assert_eq!(first, again);
    assert!(w.clone_record("testrepo", "testrepo-1").last_used.seconds > used.seconds);
    assert_eq!(w.saves, 3);
}

#[test]
fn the_least_recently_used_clone_is_reassigned_when_all_are_taken() {
    let mut w = World::new();
    let clones = w.pool_with_clones("testrepo", 2);
    let a = w.checkout("testrepo", "feature-a").unwrap();
    assert_eq!(a, w.clone_record("testrepo", &clones[0]).path);
    let b = w.checkout("testrepo", "feature-b").unwrap();
    assert_eq!(b, w.clone_record("testrepo", &clones[1]).path);
    let c = w.checkout("testrepo", "main").unwrap();
    assert_eq!(c, a);
    drop_clone(w.state_mut(), "testrepo", Some(&clones[1]), CWD).unwrap();
    let d = w.checkout("testrepo", "feature-a").unwrap();
    assert_eq!(d, b);
}

#[test]
fn dirty_clones_are_never_handed_out() {
    let mut w = World::new();
    w.pool_with_clones("testrepo", 2);
    let first = format!("{}/testrepo/testrepo-1", ROOT);
    let second = format!("{}/testrepo/testrepo-2", ROOT);
    w.at(&first).dirty = true;
    assert_eq!(w.checkout("testrepo", "feature-a").unwrap(), second);
    w.at(&second).dirty = true;
    assert_eq!(
        w.checkout("testrepo", "feature-b").unwrap_err(),
        "All clones have uncommitted changes. Commit or stash changes in at least one clone."
    );
}

#[test]
fn a_pool_without_clones_cannot_check_out() {
    let mut w = World::new();
    w.init("empty").unwrap();
    assert_eq!(
        w.checkout("empty", "main").unwrap_err(),
        "No clones in pool. Run 'rpool new' first."
    );
}

#[test]
fn the_pool_is_found_from_the_current_directory() {
    let mut w = World::new();
    w.pool_with_clones("testrepo", 1);
    let inside = format!("{}/testrepo/testrepo-1/src", ROOT);
    assert_eq!(resolve_pool(&w.config, w.state(), None, &inside).unwrap(), "testrepo");
    assert!(resolve_pool(&w.config, w.state(), None, "/elsewhere").is_err());
}
