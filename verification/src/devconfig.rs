//! Development configuration that is carried from one clone to another: files
//! that repositories often leave out of version control.

use vstd::prelude::*;

use crate::model::{CloneView, PoolState};
use crate::path::{is_same_path, join_path};
use crate::path::{join, same_path};
use crate::search::{first_where, lemma_first_where, lemma_is_first, lemma_no_first};
use crate::table::Entries;
use crate::text::texts;

verus! {

/// The directories that are carried over between clones.
pub fn dev_config_dirs() -> (r: Vec<String>)
    ensures
        texts(r@) == seq![".cargo"@],
{
    let r = vec![".cargo".to_owned()];
    assert(texts(r@) =~= seq![".cargo"@]);
    r
}

/// Where the configuration of a clone would be, if it goes by these names.
pub open spec fn config_places(clone: Seq<char>, names: Seq<Seq<char>>) -> Seq<Seq<char>> {
    names.map_values(|name: Seq<char>| join(clone, name))
}

/// Where the configuration of a clone would be, files first: the clone has some if
/// any of these exists.
pub fn dev_config_places(clone: &str, files: &Vec<String>, dirs: &Vec<String>) -> (r: Vec<String>)
    ensures
        texts(r@) == config_places(clone@, texts(files@) + texts(dirs@)),
{
    let ghost want = config_places(clone@, texts(files@) + texts(dirs@));
    let mut r: Vec<String> = Vec::new();
    for i in 0..files.len()
        invariant
            want == config_places(clone@, texts(files@) + texts(dirs@)),
            r@.len() == i,
            forall|k: int| 0 <= k < i ==> (#[trigger] r@[k])@ == want[k],
    {
        r.push(join_path(clone, files[i].as_str()));
    }
    for i in 0..dirs.len()
        invariant
            want == config_places(clone@, texts(files@) + texts(dirs@)),
            r@.len() == files@.len() + i,
            forall|k: int| 0 <= k < files@.len() + i ==> (#[trigger] r@[k])@ == want[k],
    {
        r.push(join_path(clone, dirs[i].as_str()));
    }
    assert(texts(r@) =~= want);
    r
}

/// What to do next to find a clone to take the configuration from.
#[derive(Clone, Copy, Debug, PartialEq, Eq, Structural)]
pub enum SourceSearch {
    /// Find out whether this clone has any configuration.
    Look(usize),
    /// Take it from this clone.
    Use(usize),
    /// There is none.
    Nowhere,
}

/// The clone may have configuration for the clone at `exclude`: it is another one,
/// and it is not known to have none.
pub open spec fn may_serve(
    clones: Entries<CloneView>,
    exclude: Seq<char>,
    answers: Seq<Option<bool>>,
    k: int,
) -> bool {
    !same_path(clones[k].1.path, exclude) && answers[k] != Some(false)
}

/// The clone to ask of next, or to take the configuration from: the first that may
/// have some.
pub open spec fn source_search(
    clones: Entries<CloneView>,
    exclude: Seq<char>,
    answers: Seq<Option<bool>>,
) -> SourceSearch {
    match first_where(
        Seq::new(clones.len(), |k: int| k),
        |k: int| may_serve(clones, exclude, answers, k),
    ) {
        Some(k) => if answers[k] == Some(true) {
            SourceSearch::Use(k as usize)
        } else {
            SourceSearch::Look(k as usize)
        },
        None => SourceSearch::Nowhere,
    }
}

/// Finds a clone to take the development configuration from, other than the one at
/// `exclude`. `answers` tells of each clone whether it has any, as far as that was
/// found out.
pub fn find_dev_config_source(
    pool: &PoolState,
    exclude: &str,
    answers: &Vec<Option<bool>>,
) -> (r: SourceSearch)
    requires
        answers@.len() == pool@.len(),
    ensures
        r == source_search(pool@, exclude@, answers@),
        r matches SourceSearch::Use(k) ==> k < pool@.len() && answers@[k as int] == Some(true),
        r matches SourceSearch::Look(k) ==> k < pool@.len() && answers@[k as int] is None,
{
    let ghost all = Seq::new(pool@.len(), |k: int| k);
    let ghost p = |k: int| may_serve(pool@, exclude@, answers@, k);
    let n = pool.clones.len();
    for k in 0..n
        invariant
            n == pool@.len(),
            answers@.len() == n,
            all == Seq::new(pool@.len(), |k: int| k),
            p == (|k: int| may_serve(pool@, exclude@, answers@, k)),
            forall|j: int| 0 <= j < k ==> !p(#[trigger] all[j]),
    {
        let lacks = match answers[k] {
            Some(found) => !found,
            None => false,
        };
        if !lacks && !is_same_path(pool.clones.value(k).path.as_str(), exclude) {
            assert(p(all[k as int]));
            proof {
                lemma_is_first(all, p, k as int);
            }
            return match answers[k] {
                Some(found) => {
                    assert(found);
                    SourceSearch::Use(k)
                },
                None => SourceSearch::Look(k),
            };
        }
        assert(!p(all[k as int]));
    }
    proof {
        lemma_no_first(all, p);
    }
    SourceSearch::Nowhere
}

/// The clone that the configuration is taken from is another one that has some,
/// and no clone listed before it would do; whatever was found out on the way.
pub proof fn law_source_is_first(
    clones: Entries<CloneView>,
    exclude: Seq<char>,
    answers: Seq<Option<bool>>,
    has_config: Seq<bool>,
    source: usize,
    other: int,
)
    requires
        clones.len() <= usize::MAX,
        answers.len() == clones.len(),
        crate::selection::truthful(answers, has_config),
        source_search(clones, exclude, answers) == SourceSearch::Use(source),
    ensures
        source < clones.len(),
        has_config[source as int],
        !same_path(clones[source as int].1.path, exclude),
        0 <= other < source && has_config[other] ==> same_path(clones[other].1.path, exclude),
{
    let all = Seq::new(clones.len(), |k: int| k);
    let p = |k: int| may_serve(clones, exclude, answers, k);
    lemma_first_where(all, p);
    let k = first_where(all, p)->0;
    assert(all[k] == k);
    assert(answers[k] == Some(true));
    if 0 <= other < source && has_config[other] {
        assert(!p(all[other]));
        assert(answers[other] != Some(false));
    }
}

/// A clone at this path has configuration by one of these names, if `on_disk` says
/// what there is.
pub open spec fn has_config(
    clone: Seq<char>,
    names: Seq<Seq<char>>,
    on_disk: spec_fn(Seq<char>) -> bool,
) -> bool {
    exists|k: int|
        0 <= k < config_places(clone, names).len() && on_disk(
            #[trigger] config_places(clone, names)[k],
        )
}

/// Whatever the names are that configuration goes by: the clone that it is taken from
/// is another one that has some, and it is taken from nowhere only if no other clone
/// has any.
pub proof fn law_source_has_config(
    clones: Entries<CloneView>,
    exclude: Seq<char>,
    answers: Seq<Option<bool>>,
    names: Seq<Seq<char>>,
    on_disk: spec_fn(Seq<char>) -> bool,
    other: int,
)
    requires
        clones.len() <= usize::MAX,
        answers.len() == clones.len(),
        forall|k: int|
            0 <= k < clones.len() ==> (#[trigger] answers[k] matches Some(a) ==> a == has_config(
                clones[k].1.path,
                names,
                on_disk,
            )),
        0 <= other < clones.len(),
    ensures
        source_search(clones, exclude, answers) matches SourceSearch::Use(k) ==> {
            &&& k < clones.len()
            &&& !same_path(clones[k as int].1.path, exclude)
            &&& has_config(clones[k as int].1.path, names, on_disk)
        },
        source_search(clones, exclude, answers) == SourceSearch::Nowhere ==> same_path(
            clones[other].1.path,
            exclude,
        ) || !has_config(clones[other].1.path, names, on_disk),
{
    let all = Seq::new(clones.len(), |k: int| k);
    let p = |k: int| may_serve(clones, exclude, answers, k);
    lemma_first_where(all, p);
    match first_where(all, p) {
        Some(k) => {
            assert(all[k] == k);
            assert(answers[k] != Some(false));
        },
        None => {
            assert(!p(all[other]));
            assert(answers[other] == Some(false) || same_path(clones[other].1.path, exclude));
        },
    }
}

/// One file or directory to be copied.
pub struct CopyTask {
    /// What is copied.
    pub name: String,
    /// From where.
    pub from: String,
    /// To where.
    pub to: String,
    /// Whether it is a directory; else it is a file.
    pub directory: bool,
}

/// What a [`CopyTask`] says.
pub struct CopyTaskView {
    pub name: Seq<char>,
    pub from: Seq<char>,
    pub to: Seq<char>,
    pub directory: bool,
}

impl View for CopyTask {
    type V = CopyTaskView;

    open spec fn view(&self) -> CopyTaskView {
        CopyTaskView {
            name: self.name@,
            from: self.from@,
            to: self.to@,
            directory: self.directory,
        }
    }
}

/// The copy of one name from one clone to another.
pub open spec fn copy_of(
    name: Seq<char>,
    source: Seq<char>,
    target: Seq<char>,
    directory: bool,
) -> CopyTaskView {
    CopyTaskView { name, from: join(source, name), to: join(target, name), directory }
}

fn copy_task(name: &str, source: &str, target: &str, directory: bool) -> (r: CopyTask)
    ensures
        r@ == copy_of(name@, source@, target@, directory),
{
    CopyTask {
        name: name.to_owned(),
        from: join_path(source, name),
        to: join_path(target, name),
        directory,
    }
}

/// What the tasks say, in order.
pub open spec fn tasks_of(v: Seq<CopyTask>) -> Seq<CopyTaskView> {
    v.map_values(|t: CopyTask| t@)
}

/// The copies that carry these files and directories from one clone to another.
pub open spec fn copies(
    source: Seq<char>,
    target: Seq<char>,
    files: Seq<Seq<char>>,
    dirs: Seq<Seq<char>>,
) -> Seq<CopyTaskView> {
    files.map_values(|name: Seq<char>| copy_of(name, source, target, false)) + dirs.map_values(
        |name: Seq<char>| copy_of(name, source, target, true),
    )
}

/// The copies that carry the development configuration from one clone to another,
/// in order. What does not exist at the source is left out when they are made.
pub fn copy_dev_configs(
    source: &str,
    target: &str,
    files: &Vec<String>,
    dirs: &Vec<String>,
) -> (r: Vec<CopyTask>)
    ensures
        tasks_of(r@) == copies(source@, target@, texts(files@), texts(dirs@)),
{
    let ghost want = copies(source@, target@, texts(files@), texts(dirs@));
    let mut r: Vec<CopyTask> = Vec::new();
    for i in 0..files.len()
        invariant
            want == copies(source@, target@, texts(files@), texts(dirs@)),
            r@.len() == i,
            forall|k: int| 0 <= k < i ==> (#[trigger] r@[k])@ == want[k],
    {
        r.push(copy_task(files[i].as_str(), source, target, false));
    }
    for i in 0..dirs.len()
        invariant
            want == copies(source@, target@, texts(files@), texts(dirs@)),
            r@.len() == files@.len() + i,
            forall|k: int| 0 <= k < files@.len() + i ==> (#[trigger] r@[k])@ == want[k],
    {
        r.push(copy_task(dirs[i].as_str(), source, target, true));
    }
    assert(tasks_of(r@) =~= want);
    r
}

/// Every file and directory that is named is copied to the same name in the other
/// clone, and nothing else is.
pub proof fn law_copies(
    source: Seq<char>,
    target: Seq<char>,
    files: Seq<Seq<char>>,
    dirs: Seq<Seq<char>>,
    task: CopyTaskView,
)
    ensures
        copies(source, target, files, dirs).contains(task) == {
            &&& task.from == join(source, task.name)
            &&& task.to == join(target, task.name)
            &&& if task.directory {
                dirs.contains(task.name)
            } else {
                files.contains(task.name)
            }
        },
{
    let all = copies(source, target, files, dirs);
    if all.contains(task) {
        let k = choose|k: int| 0 <= k < all.len() && all[k] == task;
        if k < files.len() {
            assert(files[k] == task.name);
        } else {
            assert(dirs[k - files.len()] == task.name);
        }
    }
    if task.from == join(source, task.name) && task.to == join(target, task.name) {
        if task.directory && dirs.contains(task.name) {
            let k = choose|k: int| 0 <= k < dirs.len() && dirs[k] == task.name;
            assert(all[files.len() + k] == task);
        }
        if !task.directory && files.contains(task.name) {
            let k = choose|k: int| 0 <= k < files.len() && files[k] == task.name;
            assert(all[k] == task);
        }
    }
}

/// What the user is told of a copy that was made.
pub open spec fn copied_text(task: CopyTaskView) -> Seq<char> {
    if task.directory {
        "  Copied "@ + task.name + "/"@
    } else {
        "  Copied "@ + task.name
    }
}

impl CopyTask {
    /// What the user is told once the copy was made.
    pub fn message(&self) -> (r: String)
        ensures
            r@ == copied_text(self@),
    {
        let mut r = "  Copied ".to_owned();
        r.append(self.name.as_str());
        if self.directory {
            r.append("/");
        }
        r
    }
}

/// Where configuration is looked for: in the clone, by each of the names in turn.
pub proof fn law_config_places(clone: Seq<char>, names: Seq<Seq<char>>, k: int)
    requires
        0 <= k < names.len(),
    ensures
        config_places(clone, names).len() == names.len(),
        config_places(clone, names)[k] == join(clone, names[k]),
{
}

/// The copies come in the order of the names, files before directories.
pub proof fn law_copies_in_order(
    source: Seq<char>,
    target: Seq<char>,
    files: Seq<Seq<char>>,
    dirs: Seq<Seq<char>>,
    k: int,
)
    ensures
        copies(source, target, files, dirs).len() == files.len() + dirs.len(),
        0 <= k < files.len() ==> copies(source, target, files, dirs)[k] == (CopyTaskView {
            name: files[k],
            from: join(source, files[k]),
            to: join(target, files[k]),
            directory: false,
        }),
        0 <= k < dirs.len() ==> copies(source, target, files, dirs)[files.len() + k] == (
        CopyTaskView {
            name: dirs[k],
            from: join(source, dirs[k]),
            to: join(target, dirs[k]),
            directory: true,
        }),
{
}

/// What the user is told of a copy names what was copied.
pub proof fn law_copied_words(name: Seq<char>, from: Seq<char>, to: Seq<char>)
    ensures
        copied_text(CopyTaskView { name, from, to, directory: false }) == "  Copied "@ + name,
        copied_text(CopyTaskView { name, from, to, directory: true }) == "  Copied "@ + name + "/"@,
{
}

} // verus!
