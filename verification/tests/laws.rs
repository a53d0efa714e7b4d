//! What holds of the library as a whole, on a few values.

use rpool::checkout::{Checkout, Event, Step};
use rpool::clones::{cd, drop_clone, set_pinned};
use rpool::model::{pool_dir, CloneState, Config, PoolConfig, PoolState, State, Timestamp};
use rpool::names::validate_name;
use rpool::newclone::{auto_name, plan_clone, record_clone, CloneOutcome};
use rpool::path::{is_same_path, join_path, path_within};
use rpool::resolve::{find_clone, resolve_pool};
use rpool::selection::{is_sooner, select_clean_clone, Selection};

fn time(seconds: i64) -> Timestamp {
    Timestamp { seconds, nanos: 0 }
}

fn clone_of(path: &str, branch: Option<&str>, used: i64) -> CloneState {
    CloneState {
        path: path.to_string(),
        assigned_branch: branch.map(|b| b.to_string()),
        last_used: time(used),
        pinned: false,
    }
}

fn three() -> State {
    let mut pool = PoolState::new();
    pool.clones.insert("a".to_string(), clone_of("/w/a", Some("main"), 30));
    pool.clones.insert("b".to_string(), clone_of("/w/b", Some("dev"), 10));
    pool.clones.insert("c".to_string(), clone_of("/w/c", Some("old"), 20));
    let mut other = PoolState::new();
    other.clones.insert("x".to_string(), clone_of("/w/x", Some("main"), 1));
    let mut s = State::new();
    s.pools.insert("other".to_string(), other);
    s.pools.insert("p".to_string(), pool);
    s
}

fn set_up() -> Config {
    let mut c = Config::initial(Some("/h"));
    for name in ["p", "pp"] {
        c.pools.insert(
            name.to_string(),
            PoolConfig {
                repo_url: "u".to_string(),
                github_repo: None,
                build_command: "make".to_string(),
            },
        );
    }
    c
}

#[test]
fn directories_of_pools_and_clones_lie_apart() {
    let c = set_up();
    let p = pool_dir(&c, "p");
    let pp = pool_dir(&c, "pp");
    assert!(path_within(&p, &c.clones_root) && path_within(&pp, &c.clones_root));
    assert!(!path_within(&p, &pp) && !path_within(&pp, &p));
    let one = join_path(&p, "one");
    let two = join_path(&p, "two");
    assert!(path_within(&one, &p) && path_within(&two, &p));
    assert!(path_within(&one, &c.clones_root));
    assert!(!path_within(&one, &two) && !is_same_path(&one, &two));
}

#[test]
fn a_directory_inside_a_pool_belongs_to_it() {
    let c = set_up();
    let s = three();
    assert_eq!(resolve_pool(&c, &s, None, "/h/rppool/pp/z"), Ok("pp".to_string()));
    assert_eq!(resolve_pool(&c, &s, None, "/w/b/src"), Ok("p".to_string()));
    assert!(resolve_pool(&c, &s, None, "/w/x/src").is_err());
}

#[test]
fn naming_the_current_clone_is_naming_none() {
    let s = three();
    let p = s.pools.get("p").unwrap();
    assert_eq!(find_clone(p, None, "/w/b/deep"), find_clone(p, Some("b"), "/w/b/deep"));
}

#[test]
fn names_given_to_clones_are_free_and_valid() {
    let mut s = State::new();
    let c = set_up();
    for i in 1..=12u32 {
        let pool = s.pools.get("p");
        let name = match pool {
            Some(ps) => auto_name(ps, "p"),
            None => auto_name(&PoolState::new(), "p"),
        };
        assert_eq!(name, format!("p-{}", i));
        assert!(validate_name(&name, "Clone").is_ok());
        let plan = plan_clone(&c, &s, "p", None).ok().unwrap();
        assert_eq!(plan.name, name);
        record_clone(&mut s, "p", &plan, CloneOutcome::Made, time(1)).unwrap();
        assert_eq!(cd(&s, &name, Some("p")), Ok(plan.path.clone()));
        assert_eq!(cd(&s, &name, None), Ok(plan.path));
    }
    assert_eq!(s.pools.get("p").unwrap().clones.len(), 12);
}

#[test]
fn a_dropped_clone_is_tried_first_and_a_pinned_one_last() {
    let mut s = three();
    let first = |s: &State| {
        let p = s.pools.get("p").unwrap();
        select_clean_clone(p, &vec![None; 3]).ok().unwrap()
    };
    assert_eq!(first(&s), Selection::Probe(1));
    drop_clone(&mut s, "p", Some("a"), "/").unwrap();
    assert_eq!(first(&s), Selection::Probe(0));
    set_pinned(&mut s, "p", Some("b"), "/", true).unwrap();
    let p = s.pools.get("p").unwrap();
    assert!(is_sooner(p, 0, 2) && is_sooner(p, 2, 1) && is_sooner(p, 0, 1));
    assert_eq!(s.pools.get("other").unwrap().clones.value(0).assigned_branch.as_deref(), Some("main"));
}

/// Plays a checkout where every clone in `dirty` is dirty and every command works.
fn play(mut c: Checkout, dirty: &[usize]) -> (Checkout, usize) {
    let mut steps = 0;
    loop {
        let event = match c.step() {
            Step::ReadBranch(_) => Event::Branch(None),
            Step::ProbeClean(i) => Event::Answer(!dirty.contains(&i)),
            Step::ProbeConfig { .. } => Event::Answer(false),
            Step::Git(_, _) => Event::Answer(true),
            Step::TouchTime(_) | Step::StampTime(_) => Event::Time(time(99)),
            Step::TouchSave(_) | Step::StampSave(_) | Step::CopyConfig { .. } => Event::Done,
            Step::Finish(_) | Step::Fail(_) => return (c, steps),
        };
        c = c.advance(event);
        steps += 1;
    }
}

#[test]
fn a_checkout_ends_with_the_best_clean_clone_and_touches_no_other() {
    for (dirty, expected) in [(vec![], 1usize), (vec![1], 2), (vec![1, 2], 0)] {
        let (c, steps) = play(Checkout::branch(three(), "p", "new", false), &dirty);
        assert_eq!(c.step(), Step::Finish(expected));
        assert!(steps < 20);
        let clones = &c.pool().clones;
        for i in 0..3 {
            let record = clones.value(i);
            if i == expected {
                assert_eq!(record.assigned_branch.as_deref(), Some("new"));
                assert_eq!(record.last_used, time(99));
            } else {
                let before = three();
                let was = before.pools.get("p").unwrap().clones.value(i);
                assert_eq!(record.assigned_branch, was.assigned_branch);
                assert_eq!(record.last_used, was.last_used);
            }
        }
        let other = c.state().pools.get("other").unwrap().clones.value(0);
        assert_eq!(other.last_used, time(1));
        assert_eq!(c.state().pools.all_names(), vec!["other", "p"]);
    }
    let (c, _) = play(Checkout::branch(three(), "p", "new", false), &[0, 1, 2]);
    assert!(matches!(c.step(), Step::Fail(_)));
}

#[test]
fn a_whole_checkout_leaves_one_clone_with_the_branch_or_saves_nothing() {
    // `failing` is the command that does not work, by the first words it is asked in.
    for (failing, saves) in [("", 1), ("fetch origin", 0), ("checkout", 0), ("submodule", 1)] {
        for branch in ["main", "new"] {
            let mut c = Checkout::branch(three(), "p", branch, false);
            let mut saved = 0;
            let done = loop {
                let event = match c.step() {
                    Step::ReadBranch(_) => Event::Branch(Some("elsewhere".to_string())),
                    Step::ProbeClean(_) => Event::Answer(true),
                    Step::ProbeConfig { .. } => Event::Answer(true),
                    Step::Git(task, _) => {
                        let asked = c.task_args(task).join(" ");
                        Event::Answer(failing.is_empty() || !asked.starts_with(failing))
                    }
                    Step::TouchTime(_) | Step::StampTime(_) => Event::Time(time(99)),
                    Step::TouchSave(_) | Step::StampSave(_) => {
                        saved += 1;
                        Event::Done
                    }
                    Step::CopyConfig { .. } => Event::Done,
                    Step::Finish(i) => break Some(i),
                    Step::Fail(_) => break None,
                };
                c = c.advance(event);
            };
            assert_eq!(saved, saves, "{} {}", failing, branch);
            assert_eq!(done.is_some(), failing.is_empty());
            let clones = &c.pool().clones;
            let with: Vec<usize> = (0..3)
                .filter(|i| clones.value(*i).assigned_branch.as_deref() == Some(branch))
                .collect();
            assert_eq!(with.len(), saves);
            if let Some(i) = done {
                assert_eq!(with, vec![i]);
            }
        }
    }
}

#[test]
fn a_finished_checkout_is_found_again() {
    let (c, _) = play(Checkout::branch(three(), "p", "new", false), &[]);
    assert_eq!(c.step(), Step::Finish(1));
    let again = Checkout::branch(rebuilt(&c), "p", "new", false);
    assert_eq!(again.step(), Step::ReadBranch(1));
    let (c, _) = play(Checkout::pull_request(three(), "p", 5), &[]);
    assert_eq!(c.step(), Step::Finish(1));
    let again = Checkout::pull_request(rebuilt(&c), "p", 5);
    assert_eq!(again.step(), Step::TouchTime(1));
}

fn rebuilt(c: &Checkout) -> State {
    let mut pool = PoolState::new();
    for i in 0..c.pool().clones.len() {
        let r = c.pool().clones.value(i);
        pool.clones.insert(
            c.pool().clones.name(i).clone(),
            clone_of(&r.path, r.assigned_branch.as_deref(), r.last_used.seconds),
        );
    }
    let mut s = State::new();
    s.pools.insert("p".to_string(), pool);
    s
}
