//! The record of the mounts of a deployment.

use vstd::prelude::*;

use crate::paths::{
    components, join_path, joined_path, law_components, law_joined_path, path_eq, same_path,
    ComponentSpec,
};
use crate::text::{concat2, lacks, number_string, number_text, same, zero_padded};

verus! {

pub const ETC: &'static str = "etc";

pub const VAR: &'static str = "var";

/// Where the records are.
pub const RECORD_DIR: &'static str = "/run/bootc/install-mounts";

/// With what the digest of a target begins.
pub const DIGEST_START: u64 = 0xcbf29ce484222325;

/// By what the digest is multiplied for each byte.
pub const DIGEST_PRIME: u64 = 0x100000001b3;

/// A mount, as it was found.
#[derive(Debug, Clone)]
pub struct MountIdentity {
    pub path: String,
    pub id: u64,
    pub source: String,
    pub readonly: bool,
}

/// The mounts of a deployment.
#[derive(Debug, Clone)]
pub struct MountRecord {
    pub sysroot: String,
    pub target: String,
    pub namespace_dev: u64,
    pub namespace_ino: u64,
    pub writable_state: bool,
    pub mounts: Vec<MountIdentity>,
    /// A mount which was selected for teardown before the last operation. This makes a
    /// crash between the teardown and the update of the record recoverable, without ever
    /// guessing about an unrelated mount.
    pub pending_unmount: Option<MountIdentity>,
}

/// A mount, in terms of texts.
pub struct IdentitySpec {
    pub path: Seq<char>,
    pub id: u64,
    pub source: Seq<char>,
    pub readonly: bool,
}

/// The mounts of a deployment, in terms of texts.
pub struct RecordSpec {
    pub sysroot: Seq<char>,
    pub target: Seq<char>,
    pub namespace_dev: u64,
    pub namespace_ino: u64,
    pub writable_state: bool,
    pub mounts: Seq<IdentitySpec>,
    pub pending_unmount: Option<IdentitySpec>,
}

/// Whether two mounts are the same; their paths may be written differently.
pub open spec fn same_mount(a: IdentitySpec, b: IdentitySpec) -> bool {
    path_eq(a.path, b.path) && a.id == b.id && a.source == b.source && a.readonly == b.readonly
}

/// The mounts of a list, in terms of texts.
pub open spec fn identities(list: Seq<MountIdentity>) -> Seq<IdentitySpec> {
    Seq::new(list.len(), |i: int| list[i]@)
}

/// A mount that may be there, in terms of texts.
pub open spec fn opt_identity(m: Option<MountIdentity>) -> Option<IdentitySpec> {
    match m {
        Some(m) => Some(m@),
        None => None,
    }
}

/// A mount that may be there, in terms of texts.
pub open spec fn opt_identity_ref(m: Option<&MountIdentity>) -> Option<IdentitySpec> {
    match m {
        Some(m) => Some(m@),
        None => None,
    }
}

impl MountIdentity {
    pub open spec fn view(&self) -> IdentitySpec {
        IdentitySpec { path: self.path@, id: self.id, source: self.source@, readonly: self.readonly }
    }

    /// Whether two mounts are the same; their paths may be written differently.
    pub fn same_as(&self, other: &MountIdentity) -> (r: bool)
        ensures
            r == same_mount(self@, other@),
    {
        same_path(self.path.as_str(), other.path.as_str()) && self.id == other.id && same(
            self.source.as_str(),
            other.source.as_str(),
        ) && self.readonly == other.readonly
    }

    /// A copy.
    pub fn copied(&self) -> (r: MountIdentity)
        ensures
            r@ == self@,
    {
        MountIdentity {
            path: self.path.clone(),
            id: self.id,
            source: self.source.clone(),
            readonly: self.readonly,
        }
    }
}

impl MountRecord {
    pub open spec fn view(&self) -> RecordSpec {
        RecordSpec {
            sysroot: self.sysroot@,
            target: self.target@,
            namespace_dev: self.namespace_dev,
            namespace_ino: self.namespace_ino,
            writable_state: self.writable_state,
            mounts: identities(self.mounts@),
            pending_unmount: opt_identity(self.pending_unmount),
        }
    }
}

// ---------------------------------------------------------------------------
// Where a record is
// ---------------------------------------------------------------------------

/// The digest of bytes: FNV-1a, which is the same in every process.
pub open spec fn digest(bytes: Seq<u8>) -> u64
    decreases bytes.len(),
{
    if bytes.len() == 0 {
        DIGEST_START
    } else {
        (digest(bytes.drop_last()) ^ (bytes.last() as u64)).wrapping_mul(DIGEST_PRIME)
    }
}

/// The digest of a target, in sixteen hexadecimal digits.
pub open spec fn digest_text(target: Seq<char>) -> Seq<char> {
    zero_padded(number_text(digest(vstd::utf8::encode_utf8(target)) as nat, 16), 16)
}

/// The file with the record of a target.
pub open spec fn record_file(target: Seq<char>) -> Seq<char> {
    joined_path(RECORD_DIR@, digest_text(target) + ".json"@)
}

/// The file that is locked while something is done with a target.
pub open spec fn lock_file(target: Seq<char>) -> Seq<char> {
    joined_path(RECORD_DIR@, digest_text(target) + ".lock"@)
}

/// The digest of a target, in sixteen hexadecimal digits.
fn target_digest(target: &str) -> (r: String)
    ensures
        r@ == digest_text(target@),
{
    let bytes = target.as_bytes();
    let mut value: u64 = DIGEST_START;
    let mut i: usize = 0;
    assert(bytes@.take(0) =~= seq![]);
    while i < bytes.len()
        invariant
            i <= bytes@.len(),
            value == digest(bytes@.take(i as int)),
        decreases bytes@.len() - i,
    {
        assert(bytes@.take(i + 1).drop_last() =~= bytes@.take(i as int));
        value = value ^ (bytes[i] as u64);
        value = value.wrapping_mul(DIGEST_PRIME);
        i = i + 1;
    }
    assert(bytes@.take(i as int) =~= bytes@);
    number_string(value, 16, 16)
}

/// The file with the record of a target.
pub fn record_path(target: &str) -> (r: String)
    ensures
        r@ == record_file(target@),
{
    let name = target_digest(target);
    let file = concat2(name.as_str(), ".json");
    join_path(RECORD_DIR, file.as_str())
}

/// The file that is locked while something is done with a target.
pub fn lock_path(target: &str) -> (r: String)
    ensures
        r@ == lock_file(target@),
{
    let name = target_digest(target);
    let file = concat2(name.as_str(), ".lock");
    join_path(RECORD_DIR, file.as_str())
}

/// Whether a record is that of the target it was looked up for. Targets may share a file,
/// as they may share a digest.
pub fn check_record_target(record: &MountRecord, target: &str) -> (r: bool)
    ensures
        r == path_eq(record@.target, target@),
{
    same_path(record.target.as_str(), target)
}

// ---------------------------------------------------------------------------
// The shape of a record
// ---------------------------------------------------------------------------

/// What is wrong with a record.
#[derive(Debug, Clone, Copy, PartialEq, Eq, Structural)]
pub enum ShapeError {
    MountCount,
    Topology,
    RootWritable,
    StateAttributes,
    ForeignPending,
}

impl ShapeError {
    /// The text of the error.
    pub open spec fn text(self) -> Seq<char> {
        match self {
            ShapeError::MountCount => "mount record has unexpected mount count"@,
            ShapeError::Topology => "mount record has unexpected topology"@,
            ShapeError::RootWritable => "deployment root is not recorded read-only"@,
            ShapeError::StateAttributes => {
                "persistent state readonly attributes do not match mount mode"@
            },
            ShapeError::ForeignPending => "pending unmount is not one of the recorded mounts"@,
        }
    }

    /// The text of the error.
    pub fn message(self) -> (r: &'static str)
        ensures
            r@ == self.text(),
    {
        match self {
            ShapeError::MountCount => "mount record has unexpected mount count",
            ShapeError::Topology => "mount record has unexpected topology",
            ShapeError::RootWritable => "deployment root is not recorded read-only",
            ShapeError::StateAttributes => {
                "persistent state readonly attributes do not match mount mode"
            },
            ShapeError::ForeignPending => "pending unmount is not one of the recorded mounts",
        }
    }
}

/// The paths that are mounted for a target: itself, its `etc` and its `var`.
pub open spec fn expected_paths(target: Seq<char>) -> Seq<Seq<char>> {
    seq![target, joined_path(target, ETC@), joined_path(target, VAR@)]
}

/// Whether the mounts of a record are at the paths of its target.
pub open spec fn has_topology(record: RecordSpec) -> bool {
    let expected = expected_paths(record.target);
    &&& path_eq(record.mounts[0].path, expected[0])
    &&& path_eq(record.mounts[1].path, expected[1])
    &&& path_eq(record.mounts[2].path, expected[2])
}

/// Whether a mount is one of a record.
pub open spec fn is_recorded(record: RecordSpec, mount: IdentitySpec) -> bool {
    exists|i: int| 0 <= i < record.mounts.len() && same_mount(#[trigger] record.mounts[i], mount)
}

/// What is wrong with a record, if anything is.
///
/// The deployment is mounted read-only in any case, its state as the record says; and a
/// pending teardown is that of a recorded mount.
pub open spec fn shape_error(record: RecordSpec) -> Option<ShapeError> {
    if record.mounts.len() != 3 {
        Some(ShapeError::MountCount)
    } else if !has_topology(record) {
        Some(ShapeError::Topology)
    } else if !record.mounts[0].readonly {
        Some(ShapeError::RootWritable)
    } else if record.mounts[1].readonly == record.writable_state || record.mounts[2].readonly
        == record.writable_state {
        Some(ShapeError::StateAttributes)
    } else {
        match record.pending_unmount {
            Some(pending) => if is_recorded(record, pending) {
                None
            } else {
                Some(ShapeError::ForeignPending)
            },
            None => None,
        }
    }
}

/// Whether a record has the shape that it should have.
pub fn validate_record_shape(record: &MountRecord) -> (r: Result<(), ShapeError>)
    ensures
        r == (match shape_error(record@) {
            Some(e) => Err(e),
            None => Ok::<(), ShapeError>(()),
        }),
{
    let ghost spec = record@;
    assert(spec.mounts.len() == record.mounts@.len());
    if record.mounts.len() != 3 {
        return Err(ShapeError::MountCount);
    }
    assert(spec.mounts[0] == record.mounts@[0]@);
    assert(spec.mounts[1] == record.mounts@[1]@);
    assert(spec.mounts[2] == record.mounts@[2]@);
    let target = record.target.as_str();
    let etc = join_path(target, ETC);
    let var = join_path(target, VAR);
    if !same_path(record.mounts[0].path.as_str(), target) || !same_path(
        record.mounts[1].path.as_str(),
        etc.as_str(),
    ) || !same_path(record.mounts[2].path.as_str(), var.as_str()) {
        return Err(ShapeError::Topology);
    }
    if !record.mounts[0].readonly {
        return Err(ShapeError::RootWritable);
    }
    if record.mounts[1].readonly == record.writable_state || record.mounts[2].readonly
        == record.writable_state {
        return Err(ShapeError::StateAttributes);
    }
    match &record.pending_unmount {
        Some(pending) => {
            if record.mounts[0].same_as(pending) || record.mounts[1].same_as(pending)
                || record.mounts[2].same_as(pending) {
                assert(is_recorded(spec, pending@));
                Ok(())
            } else {
                Err(ShapeError::ForeignPending)
            }
        },
        None => Ok(()),
    }
}

/// Whether the mounts of a record are at the first paths of its target.
pub open spec fn has_leading_topology(record: RecordSpec) -> bool {
    forall|i: int|
        0 <= i < record.mounts.len() ==> path_eq(
            (#[trigger] record.mounts[i]).path,
            expected_paths(record.target)[i],
        )
}

/// Whether the state that a record names has the attributes that the record says.
pub open spec fn has_state_attributes(record: RecordSpec) -> bool {
    forall|i: int|
        1 <= i < record.mounts.len() ==> (#[trigger] record.mounts[i]).readonly
            == !record.writable_state
}

/// What keeps a record from being used, if anything does.
///
/// A record without a pending teardown has to have its full shape. One with a pending teardown
/// may have lost mounts to that teardown, which takes them from the end: what is left is a first
/// part of the full shape, and the pending mount is in it.
pub open spec fn usable_error(record: RecordSpec) -> Option<ShapeError> {
    match record.pending_unmount {
        None => shape_error(record),
        Some(pending) => if record.mounts.len() == 0 || record.mounts.len() > 3 {
            Some(ShapeError::MountCount)
        } else if !has_leading_topology(record) {
            Some(ShapeError::Topology)
        } else if !record.mounts[0].readonly {
            Some(ShapeError::RootWritable)
        } else if !has_state_attributes(record) {
            Some(ShapeError::StateAttributes)
        } else if !is_recorded(record, pending) {
            Some(ShapeError::ForeignPending)
        } else {
            None
        },
    }
}

/// Whether a record may be used: it has its shape, or what a teardown left of it.
pub fn validate_usable_record(record: &MountRecord) -> (r: Result<(), ShapeError>)
    ensures
        r == (match usable_error(record@) {
            Some(e) => Err(e),
            None => Ok::<(), ShapeError>(()),
        }),
{
    let pending = match &record.pending_unmount {
        Some(pending) => pending,
        None => return validate_record_shape(record),
    };
    let ghost spec = record@;
    let n = record.mounts.len();
    assert(spec.mounts.len() == n);
    if n == 0 || n > 3 {
        return Err(ShapeError::MountCount);
    }
    let target = record.target.as_str();
    let etc = join_path(target, ETC);
    let var = join_path(target, VAR);
    let ghost expected = expected_paths(spec.target);
    let mut i: usize = 0;
    while i < n
        invariant
            i <= n,
            n <= 3,
            n == record.mounts@.len(),
            spec == record@,
            spec.mounts.len() == n,
            expected == expected_paths(spec.target),
            target@ == spec.target,
            etc@ == expected[1],
            var@ == expected[2],
            usable_error(spec) != Some(ShapeError::MountCount),
            spec.pending_unmount is Some,
            forall|j: int| 0 <= j < i ==> path_eq((#[trigger] spec.mounts[j]).path, expected[j]),
        decreases n - i,
    {
        assert(spec.mounts[i as int] == record.mounts@[i as int]@);
        let wanted = if i == 0 {
            target
        } else if i == 1 {
            etc.as_str()
        } else {
            var.as_str()
        };
        if !same_path(record.mounts[i].path.as_str(), wanted) {
            return Err(ShapeError::Topology);
        }
        i = i + 1;
    }
    assert(spec.mounts[0] == record.mounts@[0]@);
    if !record.mounts[0].readonly {
        return Err(ShapeError::RootWritable);
    }
    let mut k: usize = 1;
    while k < n
        invariant
            1 <= k <= n,
            n == record.mounts@.len(),
            spec == record@,
            spec.mounts.len() == n,
            n <= 3,
            spec.pending_unmount is Some,
            has_leading_topology(spec),
            spec.mounts[0].readonly,
            forall|j: int|
                1 <= j < k ==> (#[trigger] spec.mounts[j]).readonly == !spec.writable_state,
        decreases n - k,
    {
        assert(spec.mounts[k as int] == record.mounts@[k as int]@);
        if record.mounts[k].readonly == record.writable_state {
            return Err(ShapeError::StateAttributes);
        }
        k = k + 1;
    }
    let mut m: usize = 0;
    while m < n
        invariant
            m <= n,
            n == record.mounts@.len(),
            spec == record@,
            spec.mounts.len() == n,
            1 <= n <= 3,
            spec.pending_unmount == Some(pending@),
            has_leading_topology(spec),
            spec.mounts[0].readonly,
            has_state_attributes(spec),
            forall|j: int| 0 <= j < m ==> !same_mount(#[trigger] spec.mounts[j], pending@),
        decreases n - m,
    {
        assert(spec.mounts[m as int] == record.mounts@[m as int]@);
        if record.mounts[m].same_as(pending) {
            assert(is_recorded(spec, pending@));
            return Ok(());
        }
        m = m + 1;
    }
    Err(ShapeError::ForeignPending)
}

/// A full record is usable exactly if it has its shape, whether a teardown is pending or not.
pub proof fn law_full_records_are_judged_alike(record: RecordSpec)
    requires
        record.mounts.len() == 3,
    ensures
        usable_error(record) == shape_error(record),
{
    assert(has_leading_topology(record) == has_topology(record)) by {
        if has_leading_topology(record) {
            assert(path_eq(record.mounts[0].path, expected_paths(record.target)[0]));
            assert(path_eq(record.mounts[1].path, expected_paths(record.target)[1]));
            assert(path_eq(record.mounts[2].path, expected_paths(record.target)[2]));
        }
    }
    if has_state_attributes(record) {
        assert(record.mounts[1].readonly == !record.writable_state);
        assert(record.mounts[2].readonly == !record.writable_state);
    }
}

/// The record of a mount has its shape, once the mounts are where they belong and have the
/// attributes that were asked for.
pub proof fn law_honest_record_has_shape(
    record: RecordSpec,
    root: IdentitySpec,
    etc: IdentitySpec,
    var: IdentitySpec,
)
    requires
        record.mounts == seq![root, etc, var],
        record.pending_unmount is None,
        root.path == record.target,
        etc.path == joined_path(record.target, ETC@),
        var.path == joined_path(record.target, VAR@),
        root.readonly,
        etc.readonly == !record.writable_state,
        var.readonly == !record.writable_state,
    ensures
        shape_error(record) is None,
{
}

// ---------------------------------------------------------------------------
// A teardown that was interrupted
// ---------------------------------------------------------------------------

/// The mount at the place of a pending teardown is another than the recorded one.
#[derive(Debug, Clone, Copy, PartialEq, Eq, Structural)]
pub struct PendingChanged;

impl PendingChanged {
    /// The text of the error.
    pub fn message(self) -> (r: &'static str)
        ensures
            r@ == "pending mount identity changed; refusing recovery"@,
    {
        "pending mount identity changed; refusing recovery"
    }
}

/// Whether a pending teardown was completed before the process died: it was where nothing is
/// mounted any more. A mount that is there has to be the recorded one.
pub open spec fn recovered(pending: Option<IdentitySpec>, current: Option<IdentitySpec>) -> Result<
    bool,
    PendingChanged,
> {
    match (pending, current) {
        (None, _) => Ok(false),
        (Some(_), None) => Ok(true),
        (Some(p), Some(c)) => if same_mount(p, c) {
            Ok(false)
        } else {
            Err(PendingChanged)
        },
    }
}

/// Whether a pending teardown was completed before the process died.
pub fn pending_unmount_recovered(record: &MountRecord, current: Option<&MountIdentity>) -> (r:
    Result<bool, PendingChanged>)
    ensures
        r == recovered(record@.pending_unmount, opt_identity_ref(current)),
{
    match &record.pending_unmount {
        None => Ok(false),
        Some(pending) => match current {
            Some(current) => if pending.same_as(current) {
                Ok(false)
            } else {
                Err(PendingChanged)
            },
            None => Ok(true),
        },
    }
}

// ---------------------------------------------------------------------------
// Laws of a record
// ---------------------------------------------------------------------------

/// A record has its shape exactly if it names three mounts, the target, its `etc` and its `var`, of
/// which the first is read-only and the others are unless they are to be writable, and if the mount
/// that is pending is one of them.
pub proof fn law_shape(record: RecordSpec)
    requires
        record.target.len() > 0,
        record.target.last() != '/',
    ensures
        shape_error(record) is None <==> {
            &&& record.mounts.len() == 3
            &&& components(record.mounts[0].path) == components(record.target)
            &&& components(record.mounts[1].path) == components(record.target).push(
                ComponentSpec::Normal("etc"@),
            )
            &&& components(record.mounts[2].path) == components(record.target).push(
                ComponentSpec::Normal("var"@),
            )
            &&& record.mounts[0].readonly
            &&& record.mounts[1].readonly == !record.writable_state
            &&& record.mounts[2].readonly == !record.writable_state
            &&& record.pending_unmount matches Some(p) ==> exists|i: int|
                0 <= i < 3 && {
                    let m = #[trigger] record.mounts[i];
                    m.id == p.id && m.source == p.source && m.readonly == p.readonly && components(
                        m.path,
                    ) == components(p.path)
                }
        },
{
    reveal_strlit("etc");
    reveal_strlit("var");
    let target = record.target;
    lemma_below_target(target, "etc"@);
    lemma_below_target(target, "var"@);
    if record.pending_unmount is Some {
        let p = record.pending_unmount->0;
        if record.mounts.len() == 3 && is_recorded(record, p) {
            let i = choose|i: int|
                0 <= i < record.mounts.len() && same_mount(#[trigger] record.mounts[i], p);
            let m = record.mounts[i];
            assert(m.id == p.id && components(m.path) == components(p.path));
        }
        if exists|i: int|
            0 <= i < 3 && {
                let m = #[trigger] record.mounts[i];
                m.id == p.id && m.source == p.source && m.readonly == p.readonly && components(
                    m.path,
                ) == components(p.path)
            } {
            let i = choose|i: int|
                0 <= i < 3 && {
                    let m = #[trigger] record.mounts[i];
                    m.id == p.id && m.source == p.source && m.readonly == p.readonly && components(
                        m.path,
                    ) == components(p.path)
                };
            assert(same_mount(record.mounts[i], p));
        }
    }
}

/// What lies directly below the target.
proof fn lemma_below_target(target: Seq<char>, name: Seq<char>)
    requires
        target.len() > 0,
        target.last() != '/',
        name.len() == 3,
        lacks(name, '/'),
    ensures
        components(joined_path(target, name)) == components(target).push(
            ComponentSpec::Normal(name),
        ),
{
    assert(name[0] != '/');
    law_joined_path(target, name);
    law_components(target, name);
    assert(components(target) + seq![ComponentSpec::Normal(name)] =~= components(target).push(
        ComponentSpec::Normal(name),
    ));
}

/// The record and the lock of a target are kept in `/run/bootc/install-mounts`, by the same name of
/// sixteen characters, and told apart by their endings.
pub proof fn law_record_files(target: Seq<char>)
    ensures
        record_file(target) == "/run/bootc/install-mounts/"@ + digest_text(target) + ".json"@,
        lock_file(target) == "/run/bootc/install-mounts/"@ + digest_text(target) + ".lock"@,
        digest_text(target).len() >= 16,
{
    reveal_strlit("/run/bootc/install-mounts");
    reveal_strlit("/run/bootc/install-mounts/");
    let name = digest_text(target);
    assert(name.len() >= 16);
    lemma_hex_name(digest(vstd::utf8::encode_utf8(target)) as nat);
    assert(name[0] != '/');
    let json = name + ".json"@;
    let lock = name + ".lock"@;
    assert("/run/bootc/install-mounts"@.last() == 's');
    law_joined_path("/run/bootc/install-mounts"@, json);
    law_joined_path("/run/bootc/install-mounts"@, lock);
    assert(record_file(target) =~= "/run/bootc/install-mounts/"@ + name + ".json"@);
    assert(lock_file(target) =~= "/run/bootc/install-mounts/"@ + name + ".lock"@);
}

/// A number in hexadecimal does not begin with a slash.
proof fn lemma_hex_name(n: nat)
    ensures
        number_text(n, 16).len() > 0,
        number_text(n, 16)[0] != '/',
        zero_padded(number_text(n, 16), 16)[0] != '/',
    decreases n,
{
    if n >= 16 {
        vstd::arithmetic::div_mod::lemma_div_decreases(n as int, 16);
        lemma_hex_name(n / 16);
        assert(number_text(n, 16)[0] == number_text(n / 16, 16)[0]);
    } else {
        assert(number_text(n, 16)[0] == crate::text::digit_char(n));
    }
}

/// The digest of a target begins with a fixed number and takes in one byte after the other: it is
/// mixed in, and the whole is multiplied by a fixed prime.
pub proof fn law_digest(bytes: Seq<u8>, b: u8)
    ensures
        digest(seq![]) == 14695981039346656037u64,
        digest(bytes.push(b)) as int == ((digest(bytes) ^ (b as u64)) as int * 1099511628211) % (
        u64::MAX as int + 1),
{
    assert(bytes.push(b).drop_last() =~= bytes);
}

/// What is told of a record without its shape.
pub proof fn law_shape_messages()
    ensures
        ShapeError::MountCount.text() == "mount record has unexpected mount count"@,
        ShapeError::Topology.text() == "mount record has unexpected topology"@,
        ShapeError::RootWritable.text() == "deployment root is not recorded read-only"@,
        ShapeError::StateAttributes.text() == "persistent state readonly attributes do not match mount mode"@,
        ShapeError::ForeignPending.text() == "pending unmount is not one of the recorded mounts"@,
{
}

} // verus!
