//! Cleaning up transient content in a root file system, and the `ostree container commit`
//! command, which does nothing any more.

use vstd::prelude::*;

use crate::paths::{join_path, joined_path};

verus! {

// ---------------------------------------------------------------------------
// What is in a root
// ---------------------------------------------------------------------------

/// An entry of a directory.
#[derive(Debug)]
pub struct Entry {
    pub name: String,
    /// The device that it is on.
    pub dev: u64,
    /// Whether it is a mount point, where the kernel tells.
    pub mountpoint: Option<bool>,
    pub kind: EntryKind,
}

/// What an entry is.
#[derive(Debug)]
pub enum EntryKind {
    Dir(Vec<Entry>),
    /// Anything else.
    File,
}

/// The transient directories of a root, where they are there.
#[derive(Debug)]
pub struct TransientDirs {
    /// The device of the root.
    pub dev: u64,
    /// `run`
    pub run: Option<Vec<Entry>>,
    /// `tmp`
    pub tmp: Option<Vec<Entry>>,
    /// `var/tmp`
    pub var_tmp: Option<Vec<Entry>>,
    /// `var/cache`
    pub var_cache: Option<Vec<Entry>>,
}

/// Something to be removed.
#[derive(Debug)]
pub enum Removal {
    File(String),
    /// A directory, which is empty by then.
    Dir(String),
}

/// Something to be removed, in terms of texts.
pub enum RemovalSpec {
    File(Seq<char>),
    Dir(Seq<char>),
}

impl Removal {
    pub open spec fn view(&self) -> RemovalSpec {
        match *self {
            Removal::File(path) => RemovalSpec::File(path@),
            Removal::Dir(path) => RemovalSpec::Dir(path@),
        }
    }
}

impl RemovalSpec {
    /// The path that is removed.
    pub open spec fn path(self) -> Seq<char> {
        match self {
            RemovalSpec::File(path) => path,
            RemovalSpec::Dir(path) => path,
        }
    }
}

/// The removals of a list, in terms of texts.
pub open spec fn removals(list: Seq<Removal>) -> Seq<RemovalSpec> {
    Seq::new(list.len(), |i: int| list[i]@)
}

// ---------------------------------------------------------------------------
// What is removed
// ---------------------------------------------------------------------------

/// What is removed of a tree, in order, and whether something of it stays.
pub struct Sweep {
    pub removed: Seq<RemovalSpec>,
    pub skipped: bool,
}

/// Whether an entry is left alone: it is on another device, or it is a mount point.
pub open spec fn is_left_alone(e: Entry, dev: u64) -> bool {
    e.dev != dev || e.mountpoint == Some(true)
}

/// What is removed of an entry at a path: nothing of another mount; of a directory what is in it,
/// and then the directory, if nothing of it stays.
pub open spec fn sweep_entry(e: Entry, dev: u64, path: Seq<char>) -> Sweep
    decreases e,
{
    if is_left_alone(e, dev) {
        Sweep { removed: seq![], skipped: true }
    } else {
        match e.kind {
            EntryKind::File => Sweep { removed: seq![RemovalSpec::File(path)], skipped: false },
            EntryKind::Dir(list) => {
                let inner = sweep_list(list@, list@.len(), dev, path);
                if inner.skipped {
                    inner
                } else {
                    Sweep {
                        removed: inner.removed.push(RemovalSpec::Dir(path)),
                        skipped: false,
                    }
                }
            },
        }
    }
}

/// What is removed of the first `n` entries of a directory.
pub open spec fn sweep_list(list: Seq<Entry>, n: nat, dev: u64, path: Seq<char>) -> Sweep
    decreases list, n,
{
    if n == 0 || n > list.len() {
        Sweep { removed: seq![], skipped: false }
    } else {
        let before = sweep_list(list, (n - 1) as nat, dev, path);
        let e = list[n - 1];
        let last = sweep_entry(e, dev, joined_path(path, e.name@));
        Sweep {
            removed: before.removed + last.removed,
            skipped: before.skipped || last.skipped,
        }
    }
}

/// What is removed of the first `n` entries of a directory that stays.
pub open spec fn clean_list(list: Seq<Entry>, n: nat, dev: u64, path: Seq<char>) -> Seq<RemovalSpec>
    decreases n,
{
    if n == 0 || n > list.len() {
        seq![]
    } else {
        let before = clean_list(list, (n - 1) as nat, dev, path);
        let e = list[n - 1];
        before + sweep_entry(e, dev, joined_path(path, e.name@)).removed
    }
}

/// What is removed of a directory that stays, if it is there.
pub open spec fn clean_dir(list: Option<Vec<Entry>>, dev: u64, path: Seq<char>) -> Seq<RemovalSpec> {
    match list {
        Some(list) => clean_list(list@, list@.len(), dev, path),
        None => seq![],
    }
}

/// What is removed of a root.
pub open spec fn clean_root(root: TransientDirs) -> Seq<RemovalSpec> {
    clean_dir(root.run, root.dev, "run"@) + clean_dir(root.tmp, root.dev, "tmp"@) + clean_dir(
        root.var_tmp,
        root.dev,
        "var/tmp"@,
    ) + clean_dir(root.var_cache, root.dev, "var/cache"@)
}

impl Entry {
    /// Whether the entry is left alone: it is on another device, or it is a mount point, where the
    /// kernel tells.
    fn left_alone(&self, dev: u64) -> (r: bool)
        ensures
            r == is_left_alone(*self, dev),
    {
        self.dev != dev || match self.mountpoint {
            Some(b) => b,
            None => false,
        }
    }
}

/// Adds what is removed of the entries of a directory at `path`, and of the directory itself if
/// nothing of it stays; says whether something does.
fn remove_all_on_mount_recurse(list: &Vec<Entry>, dev: u64, path: &str, plan: &mut Vec<Removal>) -> (r:
    bool)
    ensures
        ({
            let inner = sweep_list(list@, list@.len(), dev, path@);
            &&& r == inner.skipped
            &&& removals(final(plan)@) == removals(old(plan)@) + (if inner.skipped {
                inner.removed
            } else {
                inner.removed.push(RemovalSpec::Dir(path@))
            })
        }),
    decreases list,
{
    let mut skipped = false;
    let mut i: usize = 0;
    let ghost start = removals(plan@);
    assert(start + sweep_list(list@, 0, dev, path@).removed =~= start);
    while i < list.len()
        invariant
            i <= list@.len(),
            removals(plan@) == start + sweep_list(list@, i as nat, dev, path@).removed,
            skipped == sweep_list(list@, i as nat, dev, path@).skipped,
        decreases list@.len() - i,
    {
        let entry = &list[i];
        assert(decreases_to!(list => list@[i as int]));
        let ghost before = sweep_list(list@, i as nat, dev, path@);
        let ghost inner_path = joined_path(path@, entry.name@);
        let ghost last = sweep_entry(*entry, dev, inner_path);
        let ghost now = sweep_list(list@, (i + 1) as nat, dev, path@);
        assert(now.removed == before.removed + last.removed);
        assert(now.skipped == (before.skipped || last.skipped));
        if entry.left_alone(dev) {
            skipped = true;
            assert(before.removed + last.removed =~= before.removed);
        } else {
            let inner = join_path(path, entry.name.as_str());
            match &entry.kind {
                EntryKind::Dir(children) => {
                    let some_left = remove_all_on_mount_recurse(
                        children,
                        dev,
                        inner.as_str(),
                        plan,
                    );
                    skipped = skipped || some_left;
                },
                EntryKind::File => {
                    push_removal(plan, Removal::File(inner));
                },
            }
        }
        assert(removals(plan@) =~= start + now.removed);
        i = i + 1;
    }
    if !skipped {
        push_removal(plan, Removal::Dir(path.to_string()));
        assert(removals(plan@) =~= start + sweep_list(
            list@,
            list@.len(),
            dev,
            path@,
        ).removed.push(RemovalSpec::Dir(path@)));
    }
    skipped
}

/// Appends a removal.
fn push_removal(plan: &mut Vec<Removal>, removal: Removal)
    ensures
        removals(final(plan)@) == removals(old(plan)@).push(removal@),
{
    plan.push(removal);
    assert(removals(plan@) =~= removals(old(plan)@).push(removal@));
}

/// Adds what is removed of a directory that stays.
fn clean_subdir(list: &Vec<Entry>, dev: u64, path: &str, plan: &mut Vec<Removal>)
    ensures
        removals(final(plan)@) == removals(old(plan)@) + clean_list(
            list@,
            list@.len(),
            dev,
            path@,
        ),
{
    let mut i: usize = 0;
    let ghost start = removals(plan@);
    assert(start + clean_list(list@, 0, dev, path@) =~= start);
    while i < list.len()
        invariant
            i <= list@.len(),
            removals(plan@) == start + clean_list(list@, i as nat, dev, path@),
        decreases list@.len() - i,
    {
        let entry = &list[i];
        let ghost before = clean_list(list@, i as nat, dev, path@);
        let ghost now = clean_list(list@, (i + 1) as nat, dev, path@);
        let inner = join_path(path, entry.name.as_str());
        let ghost last = sweep_entry(*entry, dev, inner@);
        assert(now == before + last.removed);
        if !entry.left_alone(dev) {
            match &entry.kind {
                EntryKind::Dir(children) => {
                    let _ = remove_all_on_mount_recurse(children, dev, inner.as_str(), plan);
                },
                EntryKind::File => {
                    push_removal(plan, Removal::File(inner));
                },
            }
        }
        assert(removals(plan@) =~= start + now);
        i = i + 1;
    }
}

/// Adds what is removed of a directory that stays, if it is there.
fn clean_optional(list: &Option<Vec<Entry>>, dev: u64, path: &str, plan: &mut Vec<Removal>)
    ensures
        removals(final(plan)@) == removals(old(plan)@) + clean_dir(*list, dev, path@),
{
    match list {
        Some(list) => clean_subdir(list, dev, path, plan),
        None => {
            assert(removals(plan@) =~= removals(plan@) + seq![]);
        },
    }
}

/// What is removed of a root: recursively the contents of `/run`, `/tmp`, `/var/tmp` and
/// `/var/cache`, without crossing into other mounts.
fn clean_paths_in(root: &TransientDirs) -> (r: Vec<Removal>)
    ensures
        removals(r@) == clean_root(*root),
{
    let mut plan: Vec<Removal> = Vec::new();
    assert(removals(plan@) =~= seq![]);
    clean_optional(&root.run, root.dev, "run", &mut plan);
    clean_optional(&root.tmp, root.dev, "tmp", &mut plan);
    clean_optional(&root.var_tmp, root.dev, "var/tmp", &mut plan);
    clean_optional(&root.var_cache, root.dev, "var/cache", &mut plan);
    assert(removals(plan@) =~= clean_root(*root));
    plan
}

/// Given a root file system, recursively removes the contents of `/run`, `/tmp`, `/var/tmp` and
/// `/var/cache`, without crossing into other mounts: the removals, in the order in which they are
/// to be made.
pub fn prepare_ostree_commit_in(root: &TransientDirs) -> (r: Vec<Removal>)
    ensures
        removals(r@) == clean_root(*root),
{
    clean_paths_in(root)
}

/// The same as [`prepare_ostree_commit_in`].
pub fn prepare_ostree_commit_in_nonstrict(root: &TransientDirs) -> (r: Vec<Removal>)
    ensures
        removals(r@) == clean_root(*root),
{
    clean_paths_in(root)
}

// ---------------------------------------------------------------------------
// Laws
// ---------------------------------------------------------------------------

/// Whether the entries of a directory hold the one at `removed`, and neither it nor a directory that
/// it is in is another mount.
pub open spec fn owns(list: Seq<Entry>, n: nat, dev: u64, path: Seq<char>, removed: Seq<char>) -> bool
    decreases list, n,
{
    if n == 0 || n > list.len() {
        false
    } else {
        owns(list, (n - 1) as nat, dev, path, removed) || entry_owns(
            list[n - 1],
            dev,
            joined_path(path, list[n - 1].name@),
            removed,
        )
    }
}

/// Whether an entry at `path` is the one at `removed` or holds it, in no other mount.
pub open spec fn entry_owns(e: Entry, dev: u64, path: Seq<char>, removed: Seq<char>) -> bool
    decreases e,
{
    !is_left_alone(e, dev) && (path == removed || match e.kind {
        EntryKind::Dir(list) => owns(list@, list@.len(), dev, path, removed),
        EntryKind::File => false,
    })
}

/// What is removed of an entry is in no other mount.
proof fn lemma_sweep_entry_owns(e: Entry, dev: u64, path: Seq<char>, i: int)
    requires
        0 <= i < sweep_entry(e, dev, path).removed.len(),
    ensures
        entry_owns(e, dev, path, sweep_entry(e, dev, path).removed[i].path()),
    decreases e,
{
    match e.kind {
        EntryKind::File => {},
        EntryKind::Dir(list) => {
            let inner = sweep_list(list@, list@.len(), dev, path);
            if i < inner.removed.len() {
                lemma_sweep_list_owns(list@, list@.len(), dev, path, i);
            }
        },
    }
}

/// The same of the first entries of a directory.
proof fn lemma_sweep_list_owns(list: Seq<Entry>, n: nat, dev: u64, path: Seq<char>, i: int)
    requires
        0 <= i < sweep_list(list, n, dev, path).removed.len(),
    ensures
        owns(list, n, dev, path, sweep_list(list, n, dev, path).removed[i].path()),
    decreases list, n,
{
    let before = sweep_list(list, (n - 1) as nat, dev, path);
    let e = list[n - 1];
    let inner = joined_path(path, e.name@);
    let last = sweep_entry(e, dev, inner);
    let all = sweep_list(list, n, dev, path);
    assert(all.removed == before.removed + last.removed);
    if i < before.removed.len() {
        lemma_sweep_list_owns(list, (n - 1) as nat, dev, path, i);
        assert(all.removed[i] == before.removed[i]);
    } else {
        lemma_sweep_entry_owns(e, dev, inner, i - before.removed.len());
        assert(all.removed[i] == last.removed[i - before.removed.len()]);
    }
}

/// Other mounts are not crossed into: nothing on another device and no mount point is removed, nor
/// anything in one.
pub proof fn law_other_mounts_are_kept(list: Seq<Entry>, n: nat, dev: u64, path: Seq<char>, i: int)
    requires
        n <= list.len(),
        0 <= i < clean_list(list, n, dev, path).len(),
    ensures
        exists|k: int|
            0 <= k < n && entry_owns(
                #[trigger] list[k],
                dev,
                joined_path(path, list[k].name@),
                clean_list(list, n, dev, path)[i].path(),
            ),
    decreases n,
{
    let before = clean_list(list, (n - 1) as nat, dev, path);
    let e = list[n - 1];
    let removed = clean_list(list, n, dev, path)[i].path();
    if i < before.len() {
        law_other_mounts_are_kept(list, (n - 1) as nat, dev, path, i);
        assert(clean_list(list, n, dev, path)[i] == before[i]);
        let k = choose|k: int|
            0 <= k < n - 1 && entry_owns(
                #[trigger] list[k],
                dev,
                joined_path(path, list[k].name@),
                before[i].path(),
            );
        assert(entry_owns(list[k], dev, joined_path(path, list[k].name@), removed));
    } else {
        let inner = joined_path(path, e.name@);
        lemma_sweep_entry_owns(e, dev, inner, i - before.len());
        assert(entry_owns(list[n - 1], dev, inner, removed));
    }
}

/// Whether a name is one that a directory can list: not empty, and not absolute.
pub open spec fn is_plain_name(name: Seq<char>) -> bool {
    name.len() > 0 && name[0] != '/'
}

/// Whether an entry and all that is in it has a name that a directory can list.
pub open spec fn plain_entry(e: Entry) -> bool
    decreases e,
{
    is_plain_name(e.name@) && match e.kind {
        EntryKind::Dir(list) => plain_list(list@, list@.len()),
        EntryKind::File => true,
    }
}

/// Whether the first `n` entries and all that is in them have names that a directory can list.
pub open spec fn plain_list(list: Seq<Entry>, n: nat) -> bool
    decreases list, n,
{
    n == 0 || n > list.len() || (plain_list(list, (n - 1) as nat) && plain_entry(list[n - 1]))
}

/// A name in a directory stands behind the path of the directory.
proof fn lemma_joined_name(path: Seq<char>, name: Seq<char>)
    requires
        is_plain_name(name),
    ensures
        path.is_prefix_of(joined_path(path, name)),
        joined_path(path, name).len() > path.len(),
        names_within(path) ==> (path + "/"@).is_prefix_of(joined_path(path, name)),
        names_within(path) ==> joined_path(path, name).len() > (path + "/"@).len(),
{
    crate::paths::lemma_not_absolute(name);
    let joined = joined_path(path, name);
    assert(path =~= joined.subrange(0, path.len() as int));
    if names_within(path) {
        let dir = path + "/"@;
        assert(dir =~= joined.subrange(0, dir.len() as int));
    }
}

/// Whether what is in a directory at a path is named with a slash between: the path is not empty and
/// does not end in one.
pub open spec fn names_within(path: Seq<char>) -> bool {
    path.len() > 0 && !"/"@.is_suffix_of(path)
}

/// What an entry holds stands behind its path.
proof fn lemma_entry_owns_below(e: Entry, dev: u64, path: Seq<char>, removed: Seq<char>)
    requires
        plain_entry(e),
        entry_owns(e, dev, path, removed),
    ensures
        path.is_prefix_of(removed),
    decreases e,
{
    if path == removed {
        assert(path =~= removed.subrange(0, path.len() as int));
    } else {
        match e.kind {
            EntryKind::Dir(list) => lemma_owns_below(list@, list@.len(), dev, path, removed),
            EntryKind::File => {},
        }
    }
}

/// What the entries of a directory hold stands behind its path.
proof fn lemma_owns_below(list: Seq<Entry>, n: nat, dev: u64, path: Seq<char>, removed: Seq<char>)
    requires
        plain_list(list, n),
        owns(list, n, dev, path, removed),
    ensures
        path.is_prefix_of(removed),
    decreases list, n,
{
    let e = list[n - 1];
    let inner = joined_path(path, e.name@);
    if owns(list, (n - 1) as nat, dev, path, removed) {
        lemma_owns_below(list, (n - 1) as nat, dev, path, removed);
    } else {
        lemma_entry_owns_below(e, dev, inner, removed);
        assert(plain_entry(e));
        lemma_joined_name(path, e.name@);
        lemma_prefix_chain(path, inner, removed);
    }
}

/// A beginning of a beginning is a beginning.
proof fn lemma_prefix_chain(a: Seq<char>, b: Seq<char>, c: Seq<char>)
    requires
        a.is_prefix_of(b),
        b.is_prefix_of(c),
    ensures
        a.is_prefix_of(c),
{
    assert(a =~= c.subrange(0, a.len() as int)) by {
        assert(b =~= c.subrange(0, b.len() as int));
        assert(a =~= b.subrange(0, a.len() as int));
    }
}

/// The entries of a list are as the list is.
proof fn lemma_plain_at(list: Seq<Entry>, n: nat, k: int)
    requires
        plain_list(list, n),
        n <= list.len(),
        0 <= k < n,
    ensures
        plain_entry(list[k]),
    decreases n,
{
    if k < n - 1 {
        lemma_plain_at(list, (n - 1) as nat, k);
    }
}

/// Whatever is removed lies below the directory that is cleaned, which stays itself: it is named by
/// the directory, a slash and what follows.
pub proof fn law_removals_lie_below(list: Seq<Entry>, dev: u64, path: Seq<char>, i: int)
    requires
        plain_list(list, list.len()),
        0 <= i < clean_list(list, list.len(), dev, path).len(),
    ensures
        path.is_prefix_of(clean_list(list, list.len(), dev, path)[i].path()),
        clean_list(list, list.len(), dev, path)[i].path().len() > path.len(),
        names_within(path) ==> is_below(clean_list(list, list.len(), dev, path)[i].path(), path),
{
    let removed = clean_list(list, list.len(), dev, path)[i].path();
    law_other_mounts_are_kept(list, list.len(), dev, path, i);
    let k = choose|k: int|
        0 <= k < list.len() && entry_owns(
            #[trigger] list[k],
            dev,
            joined_path(path, list[k].name@),
            removed,
        );
    let inner = joined_path(path, list[k].name@);
    lemma_plain_at(list, list.len(), k);
    lemma_entry_owns_below(list[k], dev, inner, removed);
    lemma_joined_name(path, list[k].name@);
    lemma_prefix_chain(path, inner, removed);
    if names_within(path) {
        lemma_prefix_chain(path + "/"@, inner, removed);
    }
}

/// Whether a path names something within a directory.
pub open spec fn is_below(path: Seq<char>, dir: Seq<char>) -> bool {
    (dir + "/"@).is_prefix_of(path) && path.len() > (dir + "/"@).len()
}

/// Whether what is in a directory has plain names, where it is there.
pub open spec fn plain_dir(list: Option<Vec<Entry>>) -> bool {
    list matches Some(l) ==> plain_list(l@, l@.len())
}

/// What is removed of a directory lies below it.
proof fn lemma_clean_dir_below(list: Option<Vec<Entry>>, dev: u64, path: Seq<char>)
    requires
        plain_dir(list),
        names_within(path),
    ensures
        forall|i: int|
            0 <= i < clean_dir(list, dev, path).len() ==> is_below(
                (#[trigger] clean_dir(list, dev, path)[i]).path(),
                path,
            ),
{
    assert forall|i: int| 0 <= i < clean_dir(list, dev, path).len() implies is_below(
        (#[trigger] clean_dir(list, dev, path)[i]).path(),
        path,
    ) by {
        law_removals_lie_below(list->0@, dev, path, i);
    }
}

/// Nothing but what is below `/run`, `/tmp`, `/var/tmp` and `/var/cache` is removed of a root.
pub proof fn law_only_transient_files_are_removed(root: TransientDirs, i: int)
    requires
        plain_dir(root.run),
        plain_dir(root.tmp),
        plain_dir(root.var_tmp),
        plain_dir(root.var_cache),
        0 <= i < clean_root(root).len(),
    ensures
        ({
            let removed = clean_root(root)[i].path();
            ||| is_below(removed, "run"@)
            ||| is_below(removed, "tmp"@)
            ||| is_below(removed, "var/tmp"@)
            ||| is_below(removed, "var/cache"@)
        }),
{
    reveal_strlit("/");
    reveal_strlit("run");
    reveal_strlit("tmp");
    reveal_strlit("var/tmp");
    reveal_strlit("var/cache");
    assert("/"@.last() == '/');
    lemma_clean_dir_below(root.run, root.dev, "run"@);
    lemma_clean_dir_below(root.tmp, root.dev, "tmp"@);
    lemma_clean_dir_below(root.var_tmp, root.dev, "var/tmp"@);
    lemma_clean_dir_below(root.var_cache, root.dev, "var/cache"@);
    let a = clean_dir(root.run, root.dev, "run"@);
    let b = clean_dir(root.tmp, root.dev, "tmp"@);
    let c = clean_dir(root.var_tmp, root.dev, "var/tmp"@);
    let d = clean_dir(root.var_cache, root.dev, "var/cache"@);
    let r = clean_root(root)[i];
    if i < a.len() {
        assert(r == a[i]);
    } else if i < a.len() + b.len() {
        assert(r == b[i - a.len()]);
    } else if i < a.len() + b.len() + c.len() {
        assert(r == c[i - a.len() - b.len()]);
    } else {
        assert(r == d[i - a.len() - b.len() - c.len()]);
    }
}

/// Whether an entry and all that is in it is of one mount, on the given device.
pub open spec fn in_one_mount(e: Entry, dev: u64) -> bool
    decreases e,
{
    !is_left_alone(e, dev) && match e.kind {
        EntryKind::Dir(list) => list_in_one_mount(list@, list@.len(), dev),
        EntryKind::File => true,
    }
}

/// Whether the first `n` entries and all that is in them are of one mount, on the given device.
pub open spec fn list_in_one_mount(list: Seq<Entry>, n: nat, dev: u64) -> bool
    decreases list, n,
{
    n == 0 || n > list.len() || (list_in_one_mount(list, (n - 1) as nat, dev) && in_one_mount(
        list[n - 1],
        dev,
    ))
}

/// A tree in which nothing else is mounted goes whole: nothing of it stays, and the last that is removed
/// is its top.
pub proof fn law_own_trees_go_whole(e: Entry, dev: u64, path: Seq<char>)
    requires
        in_one_mount(e, dev),
    ensures
        !sweep_entry(e, dev, path).skipped,
        sweep_entry(e, dev, path).removed.len() > 0,
        sweep_entry(e, dev, path).removed.last().path() == path,
    decreases e,
{
    match e.kind {
        EntryKind::File => {},
        EntryKind::Dir(list) => {
            lemma_own_lists_go_whole(list@, list@.len(), dev, path);
        },
    }
}

/// Nothing of the first entries stays where nothing else is mounted in them.
proof fn lemma_own_lists_go_whole(list: Seq<Entry>, n: nat, dev: u64, path: Seq<char>)
    requires
        list_in_one_mount(list, n, dev),
    ensures
        !sweep_list(list, n, dev, path).skipped,
    decreases list, n,
{
    if n > 0 && n <= list.len() {
        lemma_own_lists_go_whole(list, (n - 1) as nat, dev, path);
        law_own_trees_go_whole(list[n - 1], dev, joined_path(path, list[n - 1].name@));
    }
}

/// A directory in which something stays is not removed itself.
pub proof fn law_directory_with_rest_stays(list: Vec<Entry>, e: Entry, dev: u64, path: Seq<char>)
    requires
        e.kind == EntryKind::Dir(list),
        !is_left_alone(e, dev),
        sweep_list(list@, list@.len(), dev, path).skipped,
    ensures
        sweep_entry(e, dev, path).skipped,
        sweep_entry(e, dev, path).removed == sweep_list(list@, list@.len(), dev, path).removed,
{
}

// ---------------------------------------------------------------------------
// The command that does nothing
// ---------------------------------------------------------------------------

/// Printed by `ostree container commit`, which intentionally does nothing.
pub const CONTAINER_COMMIT_NOOP_MSG: &'static str =
    "note: `ostree container commit` is no longer needed and can be removed from container builds. It no longer cleans /var/cache, /var/tmp or /tmp; use `dnf clean all` or `RUN --mount=type=cache,target=/var/cache/...` to keep images small, and `bootc container lint` to check the image.";

/// `ostree container commit`, which only prints a note that it can be dropped, so that container
/// builds that call it keep working.
pub fn container_commit(out: &mut Vec<u8>)
    ensures
        final(out)@ == old(out)@ + vstd::utf8::encode_utf8(CONTAINER_COMMIT_NOOP_MSG@)
            + vstd::utf8::encode_utf8("\n"@),
{
    out.extend_from_slice(CONTAINER_COMMIT_NOOP_MSG.as_bytes());
    out.extend_from_slice("\n".as_bytes());
}

// ---------------------------------------------------------------------------
// Laws of what goes
// ---------------------------------------------------------------------------

/// Whether the first `n` entries of a directory hold a file, and neither it nor a directory that it
/// is in is on another device or a mount point.
pub open spec fn holds_own_file(list: Seq<Entry>, n: nat, dev: u64, path: Seq<char>, file: Seq<char>) -> bool
    decreases list, n,
{
    if n == 0 || n > list.len() {
        false
    } else {
        let e = list[n - 1];
        holds_own_file(list, (n - 1) as nat, dev, path, file) || is_or_holds_own_file(
            e,
            dev,
            joined_path(path, e.name@),
            file,
        )
    }
}

/// Whether an entry is a file or holds it, in no other mount.
pub open spec fn is_or_holds_own_file(e: Entry, dev: u64, path: Seq<char>, file: Seq<char>) -> bool
    decreases e,
{
    e.dev == dev && e.mountpoint != Some(true) && match e.kind {
        EntryKind::File => path == file,
        EntryKind::Dir(list) => holds_own_file(list@, list@.len(), dev, path, file),
    }
}

/// What is removed of an entry includes every own file.
proof fn lemma_sweep_entry_removes(e: Entry, dev: u64, path: Seq<char>, file: Seq<char>)
    requires
        is_or_holds_own_file(e, dev, path, file),
    ensures
        sweep_entry(e, dev, path).removed.contains(RemovalSpec::File(file)),
    decreases e,
{
    match e.kind {
        EntryKind::File => {
            assert(sweep_entry(e, dev, path).removed[0] == RemovalSpec::File(file));
        },
        EntryKind::Dir(list) => {
            lemma_sweep_list_removes(list@, list@.len(), dev, path, file);
            let inner = sweep_list(list@, list@.len(), dev, path).removed;
            let i = choose|i: int| 0 <= i < inner.len() && inner[i] == RemovalSpec::File(file);
            assert(sweep_entry(e, dev, path).removed[i] == inner[i]);
        },
    }
}

/// What is removed of a list includes every own file.
proof fn lemma_sweep_list_removes(list: Seq<Entry>, n: nat, dev: u64, path: Seq<char>, file: Seq<char>)
    requires
        holds_own_file(list, n, dev, path, file),
    ensures
        sweep_list(list, n, dev, path).removed.contains(RemovalSpec::File(file)),
    decreases list, n,
{
    let e = list[n - 1];
    let inner = joined_path(path, e.name@);
    let before = sweep_list(list, (n - 1) as nat, dev, path).removed;
    let last = sweep_entry(e, dev, inner).removed;
    let all = sweep_list(list, n, dev, path).removed;
    assert(all == before + last);
    assert(is_or_holds_own_file(e, dev, inner, file) || holds_own_file(
        list,
        (n - 1) as nat,
        dev,
        path,
        file,
    ));
    if holds_own_file(list, (n - 1) as nat, dev, path, file) {
        lemma_sweep_list_removes(list, (n - 1) as nat, dev, path, file);
        let i = choose|i: int| 0 <= i < before.len() && before[i] == RemovalSpec::File(file);
        assert(all[i] == before[i]);
    } else {
        lemma_sweep_entry_removes(e, dev, inner, file);
        let i = choose|i: int| 0 <= i < last.len() && last[i] == RemovalSpec::File(file);
        assert(all[before.len() + i] == last[i]);
    }
}

/// Every file in a directory that is cleaned goes, at whatever depth, unless it or a directory that
/// it is in is on another device or a mount point; what else stays does not keep it.
pub proof fn law_every_own_file_goes(list: Seq<Entry>, n: nat, dev: u64, path: Seq<char>, file: Seq<char>)
    requires
        holds_own_file(list, n, dev, path, file),
    ensures
        clean_list(list, n, dev, path).contains(RemovalSpec::File(file)),
    decreases n,
{
    let e = list[n - 1];
    let inner = joined_path(path, e.name@);
    let before = clean_list(list, (n - 1) as nat, dev, path);
    let last = sweep_entry(e, dev, inner).removed;
    let all = clean_list(list, n, dev, path);
    assert(is_or_holds_own_file(e, dev, inner, file) || holds_own_file(
        list,
        (n - 1) as nat,
        dev,
        path,
        file,
    ));
    if holds_own_file(list, (n - 1) as nat, dev, path, file) {
        law_every_own_file_goes(list, (n - 1) as nat, dev, path, file);
        let i = choose|i: int| 0 <= i < before.len() && before[i] == RemovalSpec::File(file);
        assert(all[i] == before[i]);
    } else {
        lemma_sweep_entry_removes(e, dev, inner, file);
        let i = choose|i: int| 0 <= i < last.len() && last[i] == RemovalSpec::File(file);
        assert(all[before.len() + i] == last[i]);
    }
}

/// The four directories are cleaned, each below its own path: every own file in one of them goes.
pub proof fn law_four_directories_are_cleaned(root: TransientDirs, file: Seq<char>)
    ensures
        root.run matches Some(l) && holds_own_file(l@, l@.len(), root.dev, "run"@, file)
            ==> clean_root(root).contains(RemovalSpec::File(file)),
        root.tmp matches Some(l) && holds_own_file(l@, l@.len(), root.dev, "tmp"@, file)
            ==> clean_root(root).contains(RemovalSpec::File(file)),
        root.var_tmp matches Some(l) && holds_own_file(l@, l@.len(), root.dev, "var/tmp"@, file)
            ==> clean_root(root).contains(RemovalSpec::File(file)),
        root.var_cache matches Some(l) && holds_own_file(
            l@,
            l@.len(),
            root.dev,
            "var/cache"@,
            file,
        ) ==> clean_root(root).contains(RemovalSpec::File(file)),
{
    let a = clean_dir(root.run, root.dev, "run"@);
    let b = clean_dir(root.tmp, root.dev, "tmp"@);
    let c = clean_dir(root.var_tmp, root.dev, "var/tmp"@);
    let d = clean_dir(root.var_cache, root.dev, "var/cache"@);
    let none: Seq<RemovalSpec> = seq![];
    assert(clean_root(root) =~= none + a + (b + c + d));
    assert(clean_root(root) =~= a + b + (c + d));
    assert(clean_root(root) =~= (a + b) + c + d);
    assert(clean_root(root) =~= (a + b + c) + d + none);
    lemma_directory_is_cleaned(root.run, root.dev, "run"@, file, none, b + c + d);
    lemma_directory_is_cleaned(root.tmp, root.dev, "tmp"@, file, a, c + d);
    lemma_directory_is_cleaned(root.var_tmp, root.dev, "var/tmp"@, file, a + b, d);
    lemma_directory_is_cleaned(root.var_cache, root.dev, "var/cache"@, file, a + b + c, none);
}

/// Every own file of a directory goes, whatever goes before and after.
proof fn lemma_directory_is_cleaned(
    list: Option<Vec<Entry>>,
    dev: u64,
    path: Seq<char>,
    file: Seq<char>,
    before: Seq<RemovalSpec>,
    after: Seq<RemovalSpec>,
)
    ensures
        list matches Some(l) && holds_own_file(l@, l@.len(), dev, path, file) ==> (before
            + clean_dir(list, dev, path) + after).contains(RemovalSpec::File(file)),
{
    if list matches Some(l) && holds_own_file(l@, l@.len(), dev, path, file) {
        let l = list->0;
        let own = clean_dir(list, dev, path);
        law_every_own_file_goes(l@, l@.len(), dev, path, file);
        let i = choose|i: int| 0 <= i < own.len() && own[i] == RemovalSpec::File(file);
        assert((before + own + after)[before.len() + i] == own[i]);
    }
}

/// Nothing of what is on another device, or is a mount point, is removed, and it keeps the directory
/// that it is in; a file that is neither goes, and so does an empty directory.
pub proof fn law_mounts_stay(e: Entry, dev: u64, path: Seq<char>)
    ensures
        e.dev != dev ==> sweep_entry(e, dev, path).removed.len() == 0 && sweep_entry(
            e,
            dev,
            path,
        ).skipped,
        e.mountpoint == Some(true) ==> sweep_entry(e, dev, path).removed.len() == 0 && sweep_entry(
            e,
            dev,
            path,
        ).skipped,
        e.dev == dev && e.mountpoint != Some(true) && e.kind is File ==> sweep_entry(
            e,
            dev,
            path,
        ).removed == seq![RemovalSpec::File(path)] && !sweep_entry(e, dev, path).skipped,
        e.dev == dev && e.mountpoint != Some(true) ==> (e.kind matches EntryKind::Dir(list)
            && list@.len() == 0 ==> sweep_entry(e, dev, path).removed == seq![
            RemovalSpec::Dir(path),
        ]),
{
    match e.kind {
        EntryKind::Dir(list) => {
            let inner = sweep_list(list@, list@.len(), dev, path);
            if list@.len() == 0 {
                assert(inner.removed =~= seq![]);
                assert(inner.removed.push(RemovalSpec::Dir(path)) =~= seq![RemovalSpec::Dir(path)]);
            }
        },
        _ => {},
    }
}

} // verus!
