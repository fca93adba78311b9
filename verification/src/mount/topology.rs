//! What is mounted, by the reports of `findmnt`, and whether it is what a record says.

use vstd::prelude::*;

use crate::mount::record::{
    shape_error, usable_error, validate_usable_record, IdentitySpec, MountIdentity, MountRecord,
    RecordSpec, ShapeError,
};
use crate::paths::{components, path_eq, same_path, ComponentSpec, PathSet};
use crate::text::{concat3, lacks, law_split_char, same, split_at_char, split_char, texts};

verus! {

/// A file system as `findmnt` reports it.
#[derive(Debug)]
pub struct Filesystem {
    pub source: String,
    pub target: String,
    pub maj_min: String,
    pub fstype: String,
    pub options: String,
    pub uuid: Option<String>,
    /// The mount ID.
    pub id: Option<u64>,
    /// What is mounted below it.
    pub children: Option<Vec<Filesystem>>,
}

// ---------------------------------------------------------------------------
// Where file systems are mounted
// ---------------------------------------------------------------------------

/// Where a file system and those below it are mounted.
pub open spec fn tree_targets(fs: Filesystem) -> Set<Seq<ComponentSpec>>
    decreases fs,
{
    match fs.children {
        Some(children) => forest_targets(children@, children@.len()).insert(
            components(fs.target@),
        ),
        None => set![components(fs.target@)],
    }
}

/// Where the first `n` file systems and those below them are mounted.
pub open spec fn forest_targets(list: Seq<Filesystem>, n: nat) -> Set<Seq<ComponentSpec>>
    decreases list, n,
{
    if n == 0 || n > list.len() {
        Set::empty()
    } else {
        forest_targets(list, (n - 1) as nat).union(tree_targets(list[n - 1]))
    }
}

/// Adds where the file systems and those below them are mounted.
pub fn collect_mount_targets(filesystems: &Vec<Filesystem>, targets: &mut PathSet)
    ensures
        final(targets)@ == old(targets)@.union(
            forest_targets(filesystems@, filesystems@.len()),
        ),
    decreases filesystems,
{
    let mut i: usize = 0;
    let ghost before = targets@;
    assert(before =~= before.union(forest_targets(filesystems@, 0)));
    while i < filesystems.len()
        invariant
            i <= filesystems@.len(),
            targets@ == before.union(forest_targets(filesystems@, i as nat)),
        decreases filesystems@.len() - i,
    {
        let fs = &filesystems[i];
        assert(decreases_to!(filesystems => filesystems@[i as int]));
        targets.insert(fs.target.as_str());
        match &fs.children {
            Some(children) => {
                collect_mount_targets(children, targets);
            },
            None => {},
        }
        proof {
            let tree = tree_targets(*fs);
            assert(tree == match fs.children {
                Some(children) => forest_targets(children@, children@.len()).insert(
                    components(fs.target@),
                ),
                None => set![components(fs.target@)],
            });
            assert(forest_targets(filesystems@, (i + 1) as nat) == forest_targets(
                filesystems@,
                i as nat,
            ).union(tree));
            assert(targets@ =~= before.union(forest_targets(filesystems@, (i + 1) as nat)));
        }
        i = i + 1;
    }
}

// ---------------------------------------------------------------------------
// One mount
// ---------------------------------------------------------------------------

/// Why a mount cannot be identified.
#[derive(Debug)]
pub enum IdentityError {
    /// Nothing is mounted at the named path.
    NotAMountpoint(String),
    /// `findmnt` does not know the mount ID at the named path.
    NoMountId(String),
    /// `findmnt` does not know the ID of the mount that is visible.
    NoCurrentId,
}

impl IdentityError {
    /// The text of the error.
    pub open spec fn text(self) -> Seq<char> {
        match self {
            IdentityError::NotAMountpoint(path) => path@ + " is not a mountpoint"@,
            IdentityError::NoMountId(path) => "findmnt did not report a mount ID for "@ + path@,
            IdentityError::NoCurrentId => "findmnt did not report a mount ID"@,
        }
    }

    /// The text of the error.
    pub fn message(&self) -> (r: String)
        ensures
            r@ == self.text(),
    {
        match self {
            IdentityError::NotAMountpoint(path) => crate::text::concat2(
                path.as_str(),
                " is not a mountpoint",
            ),
            IdentityError::NoMountId(path) => crate::text::concat2(
                "findmnt did not report a mount ID for ",
                path.as_str(),
            ),
            IdentityError::NoCurrentId => "findmnt did not report a mount ID".to_string(),
        }
    }
}

/// Whether the options of a mount say that it is read-only.
pub open spec fn is_readonly(options: Seq<char>) -> bool {
    split_char(options, ',').contains("ro"@)
}

/// Whether the options of a mount say that it is read-only.
fn options_readonly(options: &str) -> (r: bool)
    ensures
        r == is_readonly(options@),
{
    let parts = split_at_char(options, ',');
    let ghost all = texts(parts@);
    let mut i: usize = 0;
    while i < parts.len()
        invariant
            i <= parts@.len(),
            all == texts(parts@),
            all == split_char(options@, ','),
            forall|j: int| 0 <= j < i ==> #[trigger] all[j] != "ro"@,
        decreases parts@.len() - i,
    {
        assert(all[i as int] == parts@[i as int]@);
        if same(parts[i].as_str(), "ro") {
            return true;
        }
        i = i + 1;
    }
    false
}

/// The mount that a report tells of, at a path.
pub open spec fn identity_at(path: Seq<char>, fs: Filesystem, id: u64) -> IdentitySpec {
    IdentitySpec { path, id, source: fs.source@, readonly: is_readonly(fs.options@) }
}

/// The mount that a report tells of, at a path.
fn identify(path: &str, fs: &Filesystem, id: u64) -> (r: MountIdentity)
    ensures
        r@ == identity_at(path@, *fs, id),
{
    MountIdentity {
        path: path.to_string(),
        id,
        source: fs.source.clone(),
        readonly: options_readonly(fs.options.as_str()),
    }
}

/// The mount at a path, by the first file system that `findmnt --mountpoint` reports there.
pub fn mount_identity(path: &str, found: &Vec<Filesystem>) -> (r: Result<
    MountIdentity,
    IdentityError,
>)
    ensures
        if found@.len() == 0 {
            r matches Err(IdentityError::NotAMountpoint(p)) && p@ == path@
        } else {
            match found@[0].id {
                Some(id) => r matches Ok(m) && m@ == identity_at(path@, found@[0], id),
                None => r matches Err(IdentityError::NoMountId(p)) && p@ == path@,
            }
        },
{
    if found.len() == 0 {
        return Err(IdentityError::NotAMountpoint(path.to_string()));
    }
    match found[0].id {
        Some(id) => Ok(identify(path, &found[0], id)),
        None => Err(IdentityError::NoMountId(path.to_string())),
    }
}

/// The mount that is visible at a path, by the last file system that `findmnt --mountpoint`
/// reports there; `None` where there is none.
pub fn current_mount_identity(path: &str, found: &Vec<Filesystem>) -> (r: Result<
    Option<MountIdentity>,
    IdentityError,
>)
    ensures
        if found@.len() == 0 {
            r matches Ok(None)
        } else {
            match found@.last().id {
                Some(id) => r matches Ok(Some(m)) && m@ == identity_at(path@, found@.last(), id),
                None => r matches Err(IdentityError::NoCurrentId),
            }
        },
{
    if found.len() == 0 {
        return Ok(None);
    }
    let last = found.len() - 1;
    match found[last].id {
        Some(id) => Ok(Some(identify(path, &found[last], id))),
        None => Err(IdentityError::NoCurrentId),
    }
}

// ---------------------------------------------------------------------------
// A record against what is mounted
// ---------------------------------------------------------------------------

/// What was found at the path of a mount.
#[derive(Debug)]
pub enum Found {
    Missing,
    Mounted(MountIdentity),
    /// It could not be found out.
    Failed,
}

impl Found {
    /// The mount, if one was found.
    pub open spec fn mount(self) -> Option<IdentitySpec> {
        match self {
            Found::Mounted(m) => Some(m@),
            _ => None,
        }
    }
}

/// What there is to know before anything is unmounted.
#[derive(Debug)]
pub struct Observed {
    /// The device and inode of the mount namespace.
    pub namespace: (u64, u64),
    /// What is mounted at and below the target; `None` where `findmnt` fails.
    pub subtree: Option<Vec<Filesystem>>,
    /// What was found at the target.
    pub target: Found,
    /// What was found at the path of each recorded mount.
    pub current: Vec<Found>,
}

/// What keeps a record from being used.
#[derive(Debug)]
pub enum RecordError {
    Shape(ShapeError),
    OtherNamespace,
    /// `findmnt` fails below the target.
    SubtreeFailed,
    TopologyChanged,
    /// It could not be found out what is at the path of the mount at this position.
    CurrentFailed(usize),
    MissingMount,
    IdChanged(String),
    SourceChanged(String),
    ReadonlyChanged(String),
}

impl RecordError {
    /// The text of the error; that of a failure of `findmnt` is its own.
    pub open spec fn text(self) -> Seq<char> {
        match self {
            RecordError::Shape(e) => e.text(),
            RecordError::OtherNamespace => "mount record belongs to a different mount namespace"@,
            RecordError::SubtreeFailed => "findmnt failed"@,
            RecordError::TopologyChanged => "mount topology changed; refusing unmount"@,
            RecordError::CurrentFailed(_) => "findmnt failed"@,
            RecordError::MissingMount => "expected mount is missing; refusing unmount"@,
            RecordError::IdChanged(path) => "mount ID changed for "@ + path@
                + "; refusing unmount"@,
            RecordError::SourceChanged(path) => "mount source changed for "@ + path@
                + "; refusing unmount"@,
            RecordError::ReadonlyChanged(path) => "mount readonly attribute changed for "@ + path@
                + "; refusing unmount"@,
        }
    }

    /// The text of the error; that of a failure of `findmnt` is its own.
    pub fn message(&self) -> (r: String)
        ensures
            r@ == self.text(),
    {
        match self {
            RecordError::Shape(e) => e.message().to_string(),
            RecordError::OtherNamespace => {
                "mount record belongs to a different mount namespace".to_string()
            },
            RecordError::SubtreeFailed => "findmnt failed".to_string(),
            RecordError::TopologyChanged => "mount topology changed; refusing unmount".to_string(),
            RecordError::CurrentFailed(_) => "findmnt failed".to_string(),
            RecordError::MissingMount => "expected mount is missing; refusing unmount".to_string(),
            RecordError::IdChanged(path) => concat3(
                "mount ID changed for ",
                path.as_str(),
                "; refusing unmount",
            ),
            RecordError::SourceChanged(path) => concat3(
                "mount source changed for ",
                path.as_str(),
                "; refusing unmount",
            ),
            RecordError::ReadonlyChanged(path) => concat3(
                "mount readonly attribute changed for ",
                path.as_str(),
                "; refusing unmount",
            ),
        }
    }
}

/// Where the mounts of a record are.
pub open spec fn recorded_paths(mounts: Seq<IdentitySpec>) -> Set<Seq<ComponentSpec>> {
    Set::new(
        |c: Seq<ComponentSpec>|
            exists|i: int| 0 <= i < mounts.len() && components(#[trigger] mounts[i].path) == c,
    )
}

/// Whether the pending teardown of a record is that of its target, and nothing is known to be
/// mounted there any more.
pub open spec fn target_is_gone(record: RecordSpec, target: Found) -> bool {
    match record.pending_unmount {
        Some(pending) => path_eq(pending.path, record.target) && target.mount() is None,
        None => false,
    }
}

/// Where something is mounted at and below the target, as far as `findmnt` tells. A failure
/// tells that nothing is where the target itself is gone.
pub open spec fn actual_paths(record: RecordSpec, observed: Observed) -> Option<
    Set<Seq<ComponentSpec>>,
> {
    match observed.subtree {
        Some(list) => Some(forest_targets(list@, list@.len())),
        None => if target_is_gone(record, observed.target) {
            Some(Set::empty())
        } else {
            None
        },
    }
}

/// Whether what is mounted is what is recorded; the mount of a pending teardown may be gone.
pub open spec fn topology_holds(record: RecordSpec, actual: Set<Seq<ComponentSpec>>) -> bool {
    let expected = recorded_paths(record.mounts);
    actual == expected || match record.pending_unmount {
        Some(pending) => actual == expected.remove(components(pending.path)),
        None => false,
    }
}

/// What a recorded mount and what was found in its place come to.
pub enum MountFinding {
    Fine,
    Failed,
    Missing,
    IdChanged,
    SourceChanged,
    ReadonlyChanged,
}

/// What a recorded mount and what was found in its place come to. Only the mount of a pending
/// teardown may be missing.
pub open spec fn mount_finding(record: RecordSpec, wanted: IdentitySpec, found: Found) -> MountFinding {
    match found {
        Found::Failed => MountFinding::Failed,
        Found::Missing => if record.pending_unmount is Some && path_eq(
            record.pending_unmount->0.path,
            wanted.path,
        ) {
            MountFinding::Fine
        } else {
            MountFinding::Missing
        },
        Found::Mounted(m) => if wanted.id != m@.id {
            MountFinding::IdChanged
        } else if wanted.source != m@.source {
            MountFinding::SourceChanged
        } else if wanted.readonly != m@.readonly {
            MountFinding::ReadonlyChanged
        } else {
            MountFinding::Fine
        },
    }
}

/// The first mount of a record, from `from` on, that is not as it was recorded.
pub open spec fn first_finding(record: RecordSpec, current: Seq<Found>, from: int) -> Option<int>
    decreases record.mounts.len() - from,
{
    if from < 0 || from >= record.mounts.len() {
        None
    } else if !(mount_finding(record, record.mounts[from], current[from]) is Fine) {
        Some(from)
    } else {
        first_finding(record, current, from + 1)
    }
}

/// Whether `r` is the verdict on a record, by what was observed.
///
/// Whether the record is usable at all is judged first, then the namespace, then where something is mounted, then each
/// mount in its order.
pub open spec fn is_verdict(r: Result<(), RecordError>, record: RecordSpec, observed: Observed) -> bool {
    if usable_error(record) is Some {
        r == Err::<(), _>(RecordError::Shape(usable_error(record)->0))
    } else if observed.namespace != (record.namespace_dev, record.namespace_ino) {
        r == Err::<(), _>(RecordError::OtherNamespace)
    } else if actual_paths(record, observed) is None {
        r == Err::<(), _>(RecordError::SubtreeFailed)
    } else if !topology_holds(record, actual_paths(record, observed)->0) {
        r == Err::<(), _>(RecordError::TopologyChanged)
    } else {
        match first_finding(record, observed.current@, 0) {
            None => r is Ok,
            Some(i) => r matches Err(e) && match mount_finding(
                record,
                record.mounts[i],
                observed.current@[i],
            ) {
                MountFinding::Fine => false,
                MountFinding::Failed => e == RecordError::CurrentFailed(i as usize),
                MountFinding::Missing => e is MissingMount,
                MountFinding::IdChanged => e matches RecordError::IdChanged(p) && p@
                    == record.mounts[i].path,
                MountFinding::SourceChanged => e matches RecordError::SourceChanged(p) && p@
                    == record.mounts[i].path,
                MountFinding::ReadonlyChanged => e matches RecordError::ReadonlyChanged(p) && p@
                    == record.mounts[i].path,
            },
        }
    }
}

/// The paths of the recorded mounts.
fn recorded_set(record: &MountRecord) -> (r: PathSet)
    ensures
        r@ == recorded_paths(record@.mounts),
{
    let mut set = PathSet::new();
    let mut i: usize = 0;
    let ghost all = record@.mounts;
    assert(set@ =~= recorded_paths(all.take(0)));
    while i < record.mounts.len()
        invariant
            i <= record.mounts@.len(),
            all == record@.mounts,
            set@ == recorded_paths(all.take(i as int)),
        decreases record.mounts@.len() - i,
    {
        let ghost before = set@;
        set.insert(record.mounts[i].path.as_str());
        proof {
            let now = all.take(i + 1);
            let then = all.take(i as int);
            let c0 = components(record.mounts@[i as int].path@);
            assert(now[i as int].path == record.mounts@[i as int].path@);
            assert forall|c: Seq<ComponentSpec>|
                recorded_paths(now).contains(c) == before.insert(c0).contains(c) by {
                if recorded_paths(now).contains(c) {
                    let k = choose|k: int|
                        0 <= k < now.len() && components(#[trigger] now[k].path) == c;
                    if k < i {
                        assert(then[k].path == now[k].path);
                    }
                }
                if recorded_paths(then).contains(c) {
                    let k = choose|k: int|
                        0 <= k < then.len() && components(#[trigger] then[k].path) == c;
                    assert(now[k].path == then[k].path);
                }
            }
            assert(set@ =~= recorded_paths(now));
        }
        i = i + 1;
    }
    assert(all.take(i as int) =~= all);
    set
}

/// Whether a record may be used to unmount, by what was observed.
pub fn validate_record(record: &MountRecord, observed: &Observed) -> (r: Result<(), RecordError>)
    requires
        observed.current@.len() == record.mounts@.len(),
    ensures
        is_verdict(r, record@, *observed),
{
    match validate_usable_record(record) {
        Ok(()) => {},
        Err(e) => return Err(RecordError::Shape(e)),
    }
    if observed.namespace.0 != record.namespace_dev || observed.namespace.1
        != record.namespace_ino {
        return Err(RecordError::OtherNamespace);
    }
    let expected = recorded_set(record);
    let mut actual = PathSet::new();
    match &observed.subtree {
        Some(list) => {
            collect_mount_targets(list, &mut actual);
            assert(actual@ =~= forest_targets(list@, list@.len()));
        },
        None => {
            let gone = match &record.pending_unmount {
                Some(pending) => same_path(pending.path.as_str(), record.target.as_str())
                    && match observed.target {
                    Found::Mounted(_) => false,
                    _ => true,
                },
                None => false,
            };
            if !gone {
                return Err(RecordError::SubtreeFailed);
            }
        },
    }
    let reduced = match &record.pending_unmount {
        Some(pending) => actual.same_without(&expected, pending.path.as_str()),
        None => false,
    };
    if !actual.same_as(&expected) && !reduced {
        return Err(RecordError::TopologyChanged);
    }
    let mut i: usize = 0;
    let ghost spec = record@;
    while i < record.mounts.len()
        invariant
            i <= record.mounts@.len(),
            spec == record@,
            observed.current@.len() == record.mounts@.len(),
            usable_error(spec) is None,
            observed.namespace == (spec.namespace_dev, spec.namespace_ino),
            actual_paths(spec, *observed) is Some,
            topology_holds(spec, actual_paths(spec, *observed)->0),
            first_finding(spec, observed.current@, 0) == first_finding(
                spec,
                observed.current@,
                i as int,
            ),
        decreases record.mounts@.len() - i,
    {
        let wanted = &record.mounts[i];
        assert(spec.mounts[i as int] == wanted@);
        match &observed.current[i] {
            Found::Failed => {
                return Err(RecordError::CurrentFailed(i));
            },
            Found::Missing => {
                let allowed = match &record.pending_unmount {
                    Some(pending) => same_path(pending.path.as_str(), wanted.path.as_str()),
                    None => false,
                };
                if !allowed {
                    return Err(RecordError::MissingMount);
                }
            },
            Found::Mounted(found) => {
                if wanted.id != found.id {
                    return Err(RecordError::IdChanged(wanted.path.clone()));
                }
                if !same(wanted.source.as_str(), found.source.as_str()) {
                    return Err(RecordError::SourceChanged(wanted.path.clone()));
                }
                if wanted.readonly != found.readonly {
                    return Err(RecordError::ReadonlyChanged(wanted.path.clone()));
                }
            },
        }
        i = i + 1;
    }
    Ok(())
}

/// A record that was accepted tells of nothing that is not there: each mount is in place
/// with its ID, source and attribute, unless its teardown was pending and it is gone.
pub proof fn law_accepted_mounts_are_in_place(record: RecordSpec, observed: Observed, i: int)
    requires
        observed.current@.len() == record.mounts.len(),
        is_verdict(Ok(()), record, observed),
        0 <= i < record.mounts.len(),
    ensures
        match observed.current@[i] {
            Found::Mounted(m) => m@.id == record.mounts[i].id && m@.source
                == record.mounts[i].source && m@.readonly == record.mounts[i].readonly,
            Found::Missing => record.pending_unmount is Some && path_eq(
                record.pending_unmount->0.path,
                record.mounts[i].path,
            ),
            Found::Failed => false,
        },
{
    lemma_first_finding(record, observed.current@, 0, i);
}

/// A record that was accepted is one of this namespace; its deployment is read-only, and its state
/// is writable only where that was asked for. It is full unless a teardown is pending.
pub proof fn law_accepted_record_keeps_the_root_read_only(record: RecordSpec, observed: Observed)
    requires
        is_verdict(Ok(()), record, observed),
    ensures
        observed.namespace == (record.namespace_dev, record.namespace_ino),
        1 <= record.mounts.len() <= 3,
        record.pending_unmount is None ==> record.mounts.len() == 3,
        record.mounts[0].readonly,
        forall|i: int|
            1 <= i < record.mounts.len() ==> (#[trigger] record.mounts[i]).readonly
                == !record.writable_state,
{
}

/// Where there is no finding, every mount is fine.
proof fn lemma_first_finding(record: RecordSpec, current: Seq<Found>, from: int, i: int)
    requires
        first_finding(record, current, from) is None,
        0 <= from <= i < record.mounts.len(),
    ensures
        mount_finding(record, record.mounts[i], current[i]) is Fine,
    decreases i - from,
{
    if from < i {
        lemma_first_finding(record, current, from + 1, i);
    }
}

/// A record that was accepted knows every mount at and below the target: there is none at
/// another path than the recorded ones.
pub proof fn law_accepted_record_knows_every_mount(
    record: RecordSpec,
    observed: Observed,
    path: Seq<char>,
)
    requires
        is_verdict(Ok(()), record, observed),
        actual_paths(record, observed) is Some,
        actual_paths(record, observed)->0.contains(components(path)),
    ensures
        exists|i: int|
            0 <= i < record.mounts.len() && path_eq(#[trigger] record.mounts[i].path, path),
{
    assert(recorded_paths(record.mounts).contains(components(path)));
}

/// A teardown that was interrupted between an unmount and the update of the record is accepted
/// again: the record names the mount that is gone as pending, and the others are in place.
pub proof fn law_interrupted_unmount_is_accepted(record: RecordSpec, observed: Observed, gone: int)
    requires
        usable_error(record) is None,
        0 <= gone < record.mounts.len(),
        record.pending_unmount == Some(record.mounts[gone]),
        observed.namespace == (record.namespace_dev, record.namespace_ino),
        actual_paths(record, observed) is Some,
        actual_paths(record, observed)->0 == recorded_paths(record.mounts).remove(
            components(record.mounts[gone].path),
        ),
        observed.current@.len() == record.mounts.len(),
        observed.current@[gone] is Missing,
        forall|i: int|
            0 <= i < record.mounts.len() && i != gone ==> (#[trigger] observed.current@[i]).mount()
                == Some(record.mounts[i]),
    ensures
        is_verdict(Ok(()), record, observed),
{
    assert forall|i: int| 0 <= i < record.mounts.len() implies mount_finding(
        record,
        #[trigger] record.mounts[i],
        observed.current@[i],
    ) is Fine by {
        if i != gone {
            assert(observed.current@[i].mount() == Some(record.mounts[i]));
        }
    }
    lemma_no_finding(record, observed.current@, 0);
}

/// Where every mount is fine, there is no finding.
pub proof fn lemma_no_finding(record: RecordSpec, current: Seq<Found>, from: int)
    requires
        0 <= from,
        forall|i: int|
            0 <= i < record.mounts.len() ==> mount_finding(
                record,
                #[trigger] record.mounts[i],
                current[i],
            ) is Fine,
    ensures
        first_finding(record, current, from) is None,
    decreases record.mounts.len() - from,
{
    if from < record.mounts.len() {
        assert(mount_finding(record, record.mounts[from], current[from]) is Fine);
        lemma_no_finding(record, current, from + 1);
    }
}

// ---------------------------------------------------------------------------
// Laws of the reports
// ---------------------------------------------------------------------------

/// Options say that a mount is read-only exactly if one of them is `ro`, at whatever position: a
/// single option does if it is `ro`, and a list does if what stands before or behind one of its
/// commas does.
pub proof fn law_readonly_is_an_option(a: Seq<char>, b: Seq<char>)
    ensures
        lacks(a, ',') ==> is_readonly(a) == (a == "ro"@),
        is_readonly(a + ","@ + b) == (is_readonly(a) || is_readonly(b)),
        is_readonly("ro"@),
        is_readonly("ro"@ + ","@ + b),
        is_readonly(a + ","@ + "ro"@),
        is_readonly(a + ","@ + "ro"@ + ","@ + b),
{
    reveal_strlit(",");
    reveal_strlit("ro");
    lemma_readonly_parts(a, b);
    lemma_readonly_parts("ro"@, b);
    lemma_readonly_parts(a, "ro"@);
    lemma_readonly_parts(a + ","@ + "ro"@, b);
    assert(lacks("ro"@, ','));
    lemma_readonly_alone("ro"@);
    if lacks(a, ',') {
        lemma_readonly_alone(a);
    }
}

/// An option alone is read-only exactly if it is `ro`.
proof fn lemma_readonly_alone(a: Seq<char>)
    requires
        lacks(a, ','),
    ensures
        is_readonly(a) == (a == "ro"@),
{
    law_split_char(a, seq![], ',');
    assert(seq![a][0] == a);
    assert(seq![a].contains("ro"@) == (a == "ro"@));
}

/// A comma parts options.
proof fn lemma_readonly_parts(a: Seq<char>, b: Seq<char>)
    ensures
        is_readonly(a + ","@ + b) == (is_readonly(a) || is_readonly(b)),
{
    reveal_strlit(",");
    law_split_char(a, b, ',');
    assert(a + ","@ + b =~= a.push(',') + b);
    let x = split_char(a, ',');
    let y = split_char(b, ',');
    let ro = "ro"@;
    if x.contains(ro) {
        let i = choose|i: int| 0 <= i < x.len() && x[i] == ro;
        assert((x + y)[i] == ro);
    }
    if y.contains(ro) {
        let i = choose|i: int| 0 <= i < y.len() && y[i] == ro;
        assert((x + y)[x.len() + i] == ro);
    }
    if (x + y).contains(ro) {
        let i = choose|i: int| 0 <= i < (x + y).len() && (x + y)[i] == ro;
        if i < x.len() {
            assert(x[i] == ro);
        } else {
            assert(y[i - x.len()] == ro);
        }
    }
}

/// A mount is identified by the path that was asked for and by the ID, the source and the options
/// that were reported.
pub proof fn law_identity_is_reported(path: Seq<char>, fs: Filesystem, id: u64)
    ensures
        identity_at(path, fs, id).path == path,
        identity_at(path, fs, id).id == id,
        identity_at(path, fs, id).source == fs.source@,
        fs.options@ == "ro"@ ==> identity_at(path, fs, id).readonly,
        fs.options@ == "rw"@ ==> !identity_at(path, fs, id).readonly,
        forall|rest: Seq<char>|
            fs.options@ == #[trigger] ("ro"@ + ","@ + rest) ==> identity_at(path, fs, id).readonly,
        forall|rest: Seq<char>|
            fs.options@ == #[trigger] ("rw"@ + ","@ + rest) ==> identity_at(path, fs, id).readonly
                == is_readonly(rest),
{
    reveal_strlit("ro");
    reveal_strlit("rw");
    assert("ro"@ != "rw"@) by {
        assert("ro"@[1] != "rw"@[1]);
    }
    assert(lacks("rw"@, ','));
    assert forall|rest: Seq<char>| fs.options@ == #[trigger] ("ro"@ + ","@ + rest) implies is_readonly(
        fs.options@,
    ) by {
        law_readonly_is_an_option(seq![], rest);
    }
    assert forall|rest: Seq<char>| fs.options@ == #[trigger] ("rw"@ + ","@ + rest) implies is_readonly(
        fs.options@,
    ) == is_readonly(rest) by {
        law_readonly_is_an_option("rw"@, rest);
    }
    law_readonly_is_an_option("rw"@, seq![]);
}

/// Every file system of a report is among the mounts that are found, at whatever depth, and nothing
/// else is.
pub proof fn law_targets_are_those_reported(list: Seq<Filesystem>, k: int)
    requires
        0 <= k < list.len(),
    ensures
        forest_targets(list, list.len()).contains(components(list[k].target@)),
        list[k].children matches Some(below) ==> forest_targets(below@, below@.len()).subset_of(
            forest_targets(list, list.len()),
        ),
        forall|path: Seq<ComponentSpec>| #[trigger]
            forest_targets(list, list.len()).contains(path) ==> exists|i: int|
                0 <= i < list.len() && (path == components((#[trigger] list[i]).target@) || (
                list[i].children matches Some(below) && forest_targets(
                    below@,
                    below@.len(),
                ).contains(path))),
{
    lemma_forest_holds(list, list.len(), k);
    assert forall|path: Seq<ComponentSpec>| #[trigger]
        forest_targets(list, list.len()).contains(path) implies exists|i: int|
        0 <= i < list.len() && (path == components((#[trigger] list[i]).target@) || (
        list[i].children matches Some(below) && forest_targets(below@, below@.len()).contains(
            path,
        ))) by {
        lemma_forest_is_made_of(list, list.len(), path);
    }
}

/// What the first trees hold.
proof fn lemma_forest_holds(list: Seq<Filesystem>, n: nat, k: int)
    requires
        0 <= k < n <= list.len(),
    ensures
        forest_targets(list, n).contains(components(list[k].target@)),
        list[k].children matches Some(below) ==> forest_targets(below@, below@.len()).subset_of(
            forest_targets(list, n),
        ),
    decreases n,
{
    let tree = tree_targets(list[n - 1]);
    assert(forest_targets(list, n) == forest_targets(list, (n - 1) as nat).union(tree));
    if k < n - 1 {
        lemma_forest_holds(list, (n - 1) as nat, k);
    } else {
        assert(tree == match list[k].children {
            Some(children) => forest_targets(children@, children@.len()).insert(
                components(list[k].target@),
            ),
            None => set![components(list[k].target@)],
        });
    }
}

/// Where a path among the first trees comes from.
proof fn lemma_forest_is_made_of(list: Seq<Filesystem>, n: nat, path: Seq<ComponentSpec>)
    requires
        n <= list.len(),
        forest_targets(list, n).contains(path),
    ensures
        exists|i: int|
            0 <= i < n && (path == components((#[trigger] list[i]).target@) || (
            list[i].children matches Some(below) && forest_targets(below@, below@.len()).contains(
                path,
            ))),
    decreases n,
{
    let tree = tree_targets(list[n - 1]);
    assert(forest_targets(list, n) == forest_targets(list, (n - 1) as nat).union(tree));
    if forest_targets(list, (n - 1) as nat).contains(path) {
        lemma_forest_is_made_of(list, (n - 1) as nat, path);
    } else {
        assert(tree == match list[n - 1].children {
            Some(children) => forest_targets(children@, children@.len()).insert(
                components(list[n - 1].target@),
            ),
            None => set![components(list[n - 1].target@)],
        });
        assert(0 <= n - 1 < n);
    }
}

// ---------------------------------------------------------------------------
// Laws of the verdict
// ---------------------------------------------------------------------------

/// A record is accepted where everything is as it was recorded: the namespace, the places where
/// something is mounted at and below the target, and each mount.
pub proof fn law_unchanged_mounts_are_accepted(
    r: Result<(), RecordError>,
    record: RecordSpec,
    observed: Observed,
    list: Vec<Filesystem>,
)
    requires
        is_verdict(r, record, observed),
        shape_error(record) is None,
        record.pending_unmount is None,
        observed.namespace == (record.namespace_dev, record.namespace_ino),
        observed.subtree == Some(list),
        forall|c: Seq<ComponentSpec>| #[trigger]
            forest_targets(list@, list@.len()).contains(c) <==> exists|i: int|
                0 <= i < record.mounts.len() && components(#[trigger] record.mounts[i].path) == c,
        observed.current@.len() == record.mounts.len(),
        forall|i: int|
            0 <= i < record.mounts.len() ==> (#[trigger] observed.current@[i]).mount() == Some(
                record.mounts[i],
            ),
    ensures
        r is Ok,
{
    let actual = forest_targets(list@, list@.len());
    assert forall|c: Seq<ComponentSpec>| actual.contains(c) == recorded_paths(
        record.mounts,
    ).contains(c) by {}
    assert(actual =~= recorded_paths(record.mounts));
    assert forall|i: int| 0 <= i < record.mounts.len() implies mount_finding(
        record,
        #[trigger] record.mounts[i],
        observed.current@[i],
    ) is Fine by {
        assert(observed.current@[i].mount() == Some(record.mounts[i]));
    }
    lemma_no_finding(record, observed.current@, 0);
}

/// A record is refused where something is mounted at or below the target that it does not tell of,
/// where a mount that it tells of is gone without being pending, and in another namespace.
pub proof fn law_changed_topology_is_refused(
    r: Result<(), RecordError>,
    record: RecordSpec,
    observed: Observed,
    list: Vec<Filesystem>,
    k: int,
    i: int,
)
    requires
        is_verdict(r, record, observed),
        observed.subtree == Some(list),
        0 <= k < list@.len(),
        0 <= i < record.mounts.len(),
    ensures
        (forall|j: int|
            0 <= j < record.mounts.len() ==> components(#[trigger] record.mounts[j].path)
                != components(list@[k].target@)) ==> r is Err,
        !forest_targets(list@, list@.len()).contains(components(record.mounts[i].path)) && !(
        record.pending_unmount matches Some(p) && components(p.path) == components(
            record.mounts[i].path,
        )) ==> r is Err,
        observed.namespace != (record.namespace_dev, record.namespace_ino) ==> r is Err,
{
    let actual = forest_targets(list@, list@.len());
    let recorded = recorded_paths(record.mounts);
    law_targets_are_those_reported(list@, k);
    assert(recorded.contains(components(record.mounts[i].path)));
    let foreign = components(list@[k].target@);
    if forall|j: int|
        0 <= j < record.mounts.len() ==> components(#[trigger] record.mounts[j].path) != foreign {
        assert(!recorded.contains(foreign));
        assert(actual.contains(foreign));
    }
}

/// The first mount that is not as it was recorded is told of, by what changed: its ID before its
/// source, and its source before its attribute.
pub proof fn law_changes_are_told(
    r: Result<(), RecordError>,
    record: RecordSpec,
    observed: Observed,
    k: int,
    now: MountIdentity,
)
    requires
        is_verdict(r, record, observed),
        usable_error(record) is None,
        observed.namespace == (record.namespace_dev, record.namespace_ino),
        actual_paths(record, observed) is Some,
        topology_holds(record, actual_paths(record, observed)->0),
        observed.current@.len() == record.mounts.len(),
        0 <= k < record.mounts.len(),
        forall|i: int|
            0 <= i < k ==> (#[trigger] observed.current@[i]).mount() == Some(record.mounts[i]),
        observed.current@[k] == Found::Mounted(now),
    ensures
        now.id != record.mounts[k].id ==> (r matches Err(RecordError::IdChanged(p)) && p@
            == record.mounts[k].path),
        now.id == record.mounts[k].id && now.source@ != record.mounts[k].source ==> (r matches Err(
            RecordError::SourceChanged(p),
        ) && p@ == record.mounts[k].path),
        now.id == record.mounts[k].id && now.source@ == record.mounts[k].source && now.readonly
            != record.mounts[k].readonly ==> (r matches Err(RecordError::ReadonlyChanged(p)) && p@
            == record.mounts[k].path),
{
    if !(mount_finding(record, record.mounts[k], observed.current@[k]) is Fine) {
        lemma_finding_at(record, observed.current@, 0, k);
    }
}

/// The first finding is the one behind mounts that are as they were recorded.
proof fn lemma_finding_at(record: RecordSpec, current: Seq<Found>, from: int, k: int)
    requires
        0 <= from <= k < record.mounts.len(),
        current.len() == record.mounts.len(),
        forall|i: int|
            from <= i < k ==> (#[trigger] current[i]).mount() == Some(record.mounts[i]),
        !(mount_finding(record, record.mounts[k], current[k]) is Fine),
    ensures
        first_finding(record, current, from) == Some(k),
    decreases k - from,
{
    if from < k {
        assert(current[from].mount() == Some(record.mounts[from]));
        lemma_finding_at(record, current, from + 1, k);
    }
}

/// Where `findmnt` fails below the target the record is refused, unless the target itself is pending
/// and nothing is known to be mounted there: then, and only then, nothing counts as mounted.
pub proof fn law_failed_reports(
    r: Result<(), RecordError>,
    record: RecordSpec,
    observed: Observed,
)
    requires
        is_verdict(r, record, observed),
        observed.subtree is None,
    ensures
        record.pending_unmount is None ==> r is Err,
        record.pending_unmount matches Some(p) && components(p.path) != components(record.target)
            ==> r is Err,
        observed.target is Mounted ==> r is Err,
        r is Ok ==> forall|i: int|
            0 <= i < record.mounts.len() ==> components(#[trigger] record.mounts[i].path)
                == components(record.target),
{
    if r is Ok {
        let p = record.pending_unmount->0;
        let recorded = recorded_paths(record.mounts);
        assert forall|i: int| 0 <= i < record.mounts.len() implies components(
            #[trigger] record.mounts[i].path,
        ) == components(record.target) by {
            let c = components(record.mounts[i].path);
            assert(recorded.contains(c));
            if c != components(p.path) {
                assert(recorded.remove(components(p.path)).contains(c));
                assert(Set::<Seq<ComponentSpec>>::empty() != recorded);
            }
        }
    }
}

/// What is told of a mount that cannot be identified, and of a record that is refused.
pub proof fn law_record_messages(path: String, e: ShapeError, i: usize)
    ensures
        IdentityError::NotAMountpoint(path).text() == path@ + " is not a mountpoint"@,
        IdentityError::NoMountId(path).text() == "findmnt did not report a mount ID for "@ + path@,
        IdentityError::NoCurrentId.text() == "findmnt did not report a mount ID"@,
        RecordError::Shape(e).text() == e.text(),
        RecordError::OtherNamespace.text() == "mount record belongs to a different mount namespace"@,
        RecordError::SubtreeFailed.text() == "findmnt failed"@,
        RecordError::TopologyChanged.text() == "mount topology changed; refusing unmount"@,
        RecordError::CurrentFailed(i).text() == "findmnt failed"@,
        RecordError::MissingMount.text() == "expected mount is missing; refusing unmount"@,
        RecordError::IdChanged(path).text() == "mount ID changed for "@ + path@ + "; refusing unmount"@,
        RecordError::SourceChanged(path).text() == "mount source changed for "@ + path@ + "; refusing unmount"@,
        RecordError::ReadonlyChanged(path).text() == "mount readonly attribute changed for "@ + path@ + "; refusing unmount"@,
{
}

/// A mount that was just made is the first that is reported at its path, one that is there is the last,
/// on top of the others; where none is reported there is none, and one without an ID is told of.
pub proof fn law_reported_mounts(
    path: &str,
    found: &Vec<Filesystem>,
    made: Result<MountIdentity, IdentityError>,
    there: Result<Option<MountIdentity>, IdentityError>,
)
    requires
        call_ensures(mount_identity, (path, found), made),
        call_ensures(current_mount_identity, (path, found), there),
    ensures
        found@.len() == 0 ==> (made matches Err(IdentityError::NotAMountpoint(p)) && p@ == path@)
            && (there matches Ok(m) && m is None),
        found@.len() > 0 && found@[0].id is Some ==> (made matches Ok(m) && m.id == found@[0].id->0
            && m.source@ == found@[0].source@ && m.path@ == path@ && m.readonly == is_readonly(
            found@[0].options@,
        )),
        found@.len() > 0 && found@[0].id is None ==> (made matches Err(IdentityError::NoMountId(p))
            && p@ == path@),
        found@.len() > 0 && found@.last().id is Some ==> (there matches Ok(Some(m)) && m.id
            == found@.last().id->0 && m.source@ == found@.last().source@ && m.path@ == path@
            && m.readonly == is_readonly(found@.last().options@)),
        found@.len() > 0 && found@.last().id is None ==> (there matches Err(e) && e is NoCurrentId),
{
}

} // verus!
