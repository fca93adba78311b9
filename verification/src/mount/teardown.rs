//! Unmounting what a record names.
//!
//! [`Teardown`] holds where the teardown is. The caller performs [`Teardown::action`] and
//! reports what came of it. Each mount is named on disk as the one that is about to go,
//! before it is unmounted; so after a crash the next teardown knows which mount may be
//! missing.

use vstd::prelude::*;

use crate::mount::record::{
    expected_paths, identities, is_recorded, law_full_records_are_judged_alike, opt_identity_ref,
    pending_unmount_recovered, recovered, same_mount, shape_error, usable_error, IdentitySpec,
    MountIdentity, MountRecord, PendingChanged, RecordSpec, ShapeError, ETC, VAR,
};
use crate::mount::topology::{
    actual_paths, forest_targets, is_verdict, lemma_no_finding, mount_finding, recorded_paths,
    topology_holds, Found, Observed, RecordError,
};
use crate::paths::{
    component_count, components, law_joined_names_stay_below, only_names, part_components, path_eq,
    starts_with, ComponentSpec,
};
use crate::text::split_char;

verus! {

// ---------------------------------------------------------------------------
// The order of the mounts
// ---------------------------------------------------------------------------

/// How deep a mount is.
pub open spec fn depth(m: IdentitySpec) -> int {
    components(m.path).len() as int
}

/// Whether `order` lists the positions of `mounts` from `lo` on, each once, less deep ones
/// first and equally deep ones by their positions.
pub open spec fn is_depth_order(mounts: Seq<IdentitySpec>, order: Seq<int>, lo: int) -> bool {
    &&& order.len() == mounts.len() - lo
    &&& forall|i: int| 0 <= i < order.len() ==> lo <= #[trigger] order[i] < mounts.len()
    &&& forall|i: int, j: int|
        0 <= i < j < order.len() ==> {
            let p = #[trigger] order[i];
            let q = #[trigger] order[j];
            depth(mounts[p]) < depth(mounts[q]) || (depth(mounts[p]) == depth(mounts[q]) && p < q)
        }
}

/// The mounts at the given positions.
pub open spec fn at_positions(mounts: Seq<IdentitySpec>, order: Seq<int>) -> Seq<IdentitySpec> {
    Seq::new(order.len(), |i: int| mounts[order[i]])
}

/// Whether `out` is `mounts`, less deep ones first; equally deep ones keep their order.
pub open spec fn is_depth_sort(out: Seq<IdentitySpec>, mounts: Seq<IdentitySpec>) -> bool {
    exists|order: Seq<int>|
        is_depth_order(mounts, order, 0) && out == #[trigger] at_positions(mounts, order)
}

/// Whether mounts are in their order already.
pub open spec fn is_sorted(mounts: Seq<IdentitySpec>) -> bool {
    forall|i: int, j: int|
        0 <= i < j < mounts.len() ==> depth(#[trigger] mounts[i]) <= depth(#[trigger] mounts[j])
}

/// Putting a position where it belongs keeps an order of the positions behind it.
proof fn lemma_insert_depth(mounts: Seq<IdentitySpec>, order: Seq<int>, pos: int, k: int)
    requires
        0 <= k < mounts.len(),
        is_depth_order(mounts, order, k + 1),
        0 <= pos <= order.len(),
        forall|i: int|
            0 <= i < pos ==> depth(mounts[#[trigger] order[i]]) < depth(mounts[k]),
        pos < order.len() ==> depth(mounts[order[pos]]) >= depth(mounts[k]),
    ensures
        is_depth_order(mounts, order.insert(pos, k), k),
{
    let new = order.insert(pos, k);
    assert forall|i: int, j: int| 0 <= i < j < new.len() implies {
        let p = #[trigger] new[i];
        let q = #[trigger] new[j];
        depth(mounts[p]) < depth(mounts[q]) || (depth(mounts[p]) == depth(mounts[q]) && p < q)
    } by {
        if j < pos {
            assert(new[i] == order[i] && new[j] == order[j]);
        } else if i < pos && j == pos {
            assert(new[i] == order[i]);
        } else if i < pos {
            assert(new[i] == order[i] && new[j] == order[j - 1]);
        } else if i == pos {
            assert(new[j] == order[j - 1]);
            if j - 1 > pos {
                assert(depth(mounts[order[pos]]) <= depth(mounts[order[j - 1]]));
            }
        } else {
            assert(new[i] == order[i - 1] && new[j] == order[j - 1]);
        }
    }
}

/// Sorts mounts, less deep ones first; equally deep ones keep their order.
pub fn sort_by_depth(mounts: Vec<MountIdentity>) -> (r: Vec<MountIdentity>)
    ensures
        is_depth_sort(identities(r@), identities(mounts@)),
{
    let ghost input = identities(mounts@);
    let mut left = mounts;
    let mut out: Vec<MountIdentity> = Vec::new();
    let ghost mut order: Seq<int> = seq![];
    assert(identities(out@) =~= at_positions(input, order));
    while left.len() > 0
        invariant
            left@.len() <= input.len(),
            identities(left@) == input.take(left@.len() as int),
            is_depth_order(input, order, left@.len() as int),
            identities(out@) == at_positions(input, order),
        decreases left@.len(),
    {
        let ghost before = left@;
        let mount = left.pop().unwrap();
        let ghost k = left@.len() as int;
        proof {
            assert(identities(before)[k] == mount@);
            assert(input[k] == mount@);
            assert(identities(left@) =~= input.take(k));
            assert(identities(out@).len() == out@.len());
        }
        let d = component_count(mount.path.as_str());
        let mut pos: usize = 0;
        while pos < out.len() && component_count(out[pos].path.as_str()) < d
            invariant
                pos <= out@.len(),
                out@.len() == order.len(),
                identities(out@) == at_positions(input, order),
                input[k] == mount@,
                d == depth(mount@),
                forall|i: int|
                    0 <= i < pos ==> depth(input[#[trigger] order[i]]) < depth(input[k]),
            decreases out@.len() - pos,
        {
            assert(identities(out@)[pos as int] == out@[pos as int]@);
            assert(at_positions(input, order)[pos as int] == input[order[pos as int]]);
            pos = pos + 1;
        }
        proof {
            let old_order = order;
            if pos < out@.len() {
                assert(identities(out@)[pos as int] == out@[pos as int]@);
                assert(at_positions(input, old_order)[pos as int]
                    == input[old_order[pos as int]]);
            }
            let new_order = old_order.insert(pos as int, k);
            lemma_insert_depth(input, old_order, pos as int, k);
            assert forall|i: int| 0 <= i < new_order.len() implies #[trigger] identities(
                out@.insert(pos as int, mount),
            )[i] == at_positions(input, new_order)[i] by {
                if i < pos {
                    assert(identities(out@)[i] == at_positions(input, old_order)[i]);
                } else if i > pos {
                    assert(identities(out@)[i - 1] == at_positions(input, old_order)[i - 1]);
                }
            }
            assert(identities(out@.insert(pos as int, mount)) =~= at_positions(
                input,
                new_order,
            ));
            order = new_order;
        }
        out.insert(pos, mount);
    }
    assert(is_depth_order(input, order, 0));
    out
}

/// In the order of sorted mounts each is in its place.
proof fn lemma_sorted_order(mounts: Seq<IdentitySpec>, order: Seq<int>, i: int)
    requires
        is_sorted(mounts),
        is_depth_order(mounts, order, 0),
        0 <= i < order.len(),
    ensures
        order[i] == i,
    decreases order.len() - i,
{
    lemma_increasing(mounts, order);
    lemma_at_least(order, i);
    lemma_at_most(order, i);
}

/// The order of sorted mounts goes up.
proof fn lemma_increasing(mounts: Seq<IdentitySpec>, order: Seq<int>)
    requires
        is_sorted(mounts),
        is_depth_order(mounts, order, 0),
    ensures
        forall|i: int, j: int|
            0 <= i < j < order.len() ==> #[trigger] order[i] < #[trigger] order[j],
{
    assert forall|i: int, j: int| 0 <= i < j < order.len() implies #[trigger] order[i]
        < #[trigger] order[j] by {
        let p = order[i];
        let q = order[j];
        if q < p {
            assert(depth(mounts[q]) <= depth(mounts[p]));
        }
    }
}

/// A list of positions that goes up is not below its own.
proof fn lemma_at_least(order: Seq<int>, i: int)
    requires
        0 <= i < order.len(),
        forall|a: int| 0 <= a < order.len() ==> 0 <= #[trigger] order[a] < order.len(),
        forall|a: int, b: int|
            0 <= a < b < order.len() ==> #[trigger] order[a] < #[trigger] order[b],
    ensures
        order[i] >= i,
    decreases i,
{
    if i > 0 {
        lemma_at_least(order, i - 1);
        assert(order[i - 1] < order[i]);
    }
}

/// A list of positions that goes up is not above its own.
proof fn lemma_at_most(order: Seq<int>, i: int)
    requires
        0 <= i < order.len(),
        forall|a: int| 0 <= a < order.len() ==> 0 <= #[trigger] order[a] < order.len(),
        forall|a: int, b: int|
            0 <= a < b < order.len() ==> #[trigger] order[a] < #[trigger] order[b],
    ensures
        order[i] <= i,
    decreases order.len() - i,
{
    if i + 1 < order.len() {
        lemma_at_most(order, i + 1);
        assert(order[i] < order[i + 1]);
    }
}

/// Mounts that are sorted stay as they are.
pub proof fn law_sorted_mounts_stay(out: Seq<IdentitySpec>, mounts: Seq<IdentitySpec>)
    requires
        is_depth_sort(out, mounts),
        is_sorted(mounts),
    ensures
        out == mounts,
{
    let order = choose|order: Seq<int>|
        is_depth_order(mounts, order, 0) && out == #[trigger] at_positions(mounts, order);
    assert forall|i: int| 0 <= i < out.len() implies out[i] == mounts[i] by {
        lemma_sorted_order(mounts, order, i);
    }
    assert(out =~= mounts);
}

// ---------------------------------------------------------------------------
// The course of a teardown
// ---------------------------------------------------------------------------

/// Where a teardown is.
#[derive(Debug, Clone, Copy, PartialEq, Eq, Structural)]
pub enum Phase {
    /// The record names the next mount as pending, and is to be written.
    Mark,
    /// The mount is to be looked at.
    Inspect,
    /// The mount is to be unmounted.
    Unmount,
    /// The mount is gone and out of the record, which is to be written or removed.
    Forget,
    Done,
}

/// Where a teardown is, in terms of texts.
pub struct TeardownState {
    pub record: RecordSpec,
    pub phase: Phase,
}

/// What is to be done next.
#[derive(Debug)]
pub enum TeardownAction<'a> {
    /// Write the record.
    Write(&'a MountRecord),
    /// Find out what is mounted at the path.
    Inspect(&'a str),
    /// Unmount the path.
    Unmount(&'a str),
    /// Remove the record.
    Remove,
    Done,
}

/// What is to be done next, in terms of texts.
pub enum ActionSpec {
    Write(RecordSpec),
    Inspect(Seq<char>),
    Unmount(Seq<char>),
    Remove,
    Done,
}

impl<'a> TeardownAction<'a> {
    pub open spec fn view(&self) -> ActionSpec {
        match *self {
            TeardownAction::Write(record) => ActionSpec::Write(record@),
            TeardownAction::Inspect(path) => ActionSpec::Inspect(path@),
            TeardownAction::Unmount(path) => ActionSpec::Unmount(path@),
            TeardownAction::Remove => ActionSpec::Remove,
            TeardownAction::Done => ActionSpec::Done,
        }
    }
}

impl TeardownState {
    /// A state that makes sense: there is a mount to speak of, and it is the pending one.
    pub open spec fn wf(self) -> bool {
        match self.phase {
            Phase::Mark | Phase::Inspect | Phase::Unmount => self.record.mounts.len() > 0
                && self.record.pending_unmount == Some(self.record.mounts.last()),
            Phase::Forget => self.record.pending_unmount is None,
            Phase::Done => self.record.mounts.len() == 0 && self.record.pending_unmount is None,
        }
    }

    /// What is to be done next.
    pub open spec fn action(self) -> ActionSpec {
        match self.phase {
            Phase::Mark => ActionSpec::Write(self.record),
            Phase::Inspect => ActionSpec::Inspect(self.record.mounts.last().path),
            Phase::Unmount => ActionSpec::Unmount(self.record.mounts.last().path),
            Phase::Forget => if self.record.mounts.len() == 0 {
                ActionSpec::Remove
            } else {
                ActionSpec::Write(self.record)
            },
            Phase::Done => ActionSpec::Done,
        }
    }

    /// The last mount is gone.
    pub open spec fn forgotten(self) -> TeardownState {
        TeardownState {
            record: RecordSpec {
                mounts: self.record.mounts.drop_last(),
                pending_unmount: None,
                ..self.record
            },
            phase: Phase::Forget,
        }
    }

    /// What follows when the action was performed. To look at a mount is no such action: see
    /// `after_inspection`.
    pub open spec fn after(self) -> TeardownState {
        match self.phase {
            Phase::Mark => TeardownState { phase: Phase::Inspect, ..self },
            Phase::Unmount => self.forgotten(),
            Phase::Forget => teardown_start(self.record),
            _ => self,
        }
    }

    /// What follows from what was found at the path of the pending mount: it is unmounted,
    /// or it is gone already, or it is another one and nothing is touched any more.
    pub open spec fn after_inspection(self, current: Option<IdentitySpec>) -> Result<
        TeardownState,
        PendingChanged,
    > {
        match recovered(self.record.pending_unmount, current) {
            Err(e) => Err(e),
            Ok(true) => Ok(self.forgotten()),
            Ok(false) => Ok(TeardownState { phase: Phase::Unmount, ..self }),
        }
    }
}

/// A teardown that is about to begin, of a record whose mounts are in their order.
pub open spec fn teardown_start(record: RecordSpec) -> TeardownState {
    if record.mounts.len() == 0 {
        TeardownState {
            record: RecordSpec { pending_unmount: None, ..record },
            phase: Phase::Done,
        }
    } else {
        TeardownState {
            record: RecordSpec { pending_unmount: Some(record.mounts.last()), ..record },
            phase: Phase::Mark,
        }
    }
}

/// The teardown of the mounts of a record.
#[derive(Debug)]
pub struct Teardown {
    record: MountRecord,
    phase: Phase,
}

impl Teardown {
    /// Where the teardown is.
    pub closed spec fn view(&self) -> TeardownState {
        TeardownState { record: self.record@, phase: self.phase }
    }

    /// Selects the last mount of the record, if there is one.
    fn select(record: MountRecord) -> (r: Teardown)
        ensures
            r@ == teardown_start(record@),
            r@.wf(),
    {
        let mut record = record;
        let n = record.mounts.len();
        assert(identities(record.mounts@).len() == record.mounts@.len());
        if n == 0 {
            record.pending_unmount = None;
            Teardown { record, phase: Phase::Done }
        } else {
            let last = record.mounts[n - 1].copied();
            assert(identities(record.mounts@).last() == last@);
            record.pending_unmount = Some(last);
            Teardown { record, phase: Phase::Mark }
        }
    }

    /// The teardown of a record. Deeper mounts go before those they are in.
    pub fn new(record: MountRecord) -> (r: Teardown)
        ensures
            exists|mounts: Seq<IdentitySpec>| #[trigger]
                is_depth_sort(mounts, record@.mounts) && r@ == teardown_start(
                    RecordSpec { mounts, ..record@ },
                ),
            is_sorted(record@.mounts) ==> r@ == teardown_start(record@),
            r@.wf(),
    {
        let mut sorted = record;
        let ghost before = record@;
        sorted.mounts = sort_by_depth(sorted.mounts);
        proof {
            let mounts = identities(sorted.mounts@);
            assert(is_depth_sort(mounts, before.mounts));
            assert(sorted@ == RecordSpec { mounts, ..before });
            if is_sorted(before.mounts) {
                law_sorted_mounts_stay(mounts, before.mounts);
            }
        }
        Self::select(sorted)
    }

    /// What is to be done next.
    pub fn action(&self) -> (r: TeardownAction<'_>)
        requires
            self@.wf(),
        ensures
            r@ == self@.action(),
    {
        assert(identities(self.record.mounts@).len() == self.record.mounts@.len());
        let n = self.record.mounts.len();
        match self.phase {
            Phase::Mark => TeardownAction::Write(&self.record),
            Phase::Inspect => {
                assert(identities(self.record.mounts@).last() == self.record.mounts@[n - 1]@);
                TeardownAction::Inspect(self.record.mounts[n - 1].path.as_str())
            },
            Phase::Unmount => {
                assert(identities(self.record.mounts@).last() == self.record.mounts@[n - 1]@);
                TeardownAction::Unmount(self.record.mounts[n - 1].path.as_str())
            },
            Phase::Forget => if n == 0 {
                TeardownAction::Remove
            } else {
                TeardownAction::Write(&self.record)
            },
            Phase::Done => TeardownAction::Done,
        }
    }

    /// Takes the last mount out of the record.
    fn forget(self) -> (r: Teardown)
        requires
            self@.record.mounts.len() > 0,
        ensures
            r@ == self@.forgotten(),
    {
        let mut record = self.record;
        assert(identities(record.mounts@).len() == record.mounts@.len());
        let ghost before = record.mounts@;
        let _ = record.mounts.pop();
        record.pending_unmount = None;
        assert(identities(record.mounts@) =~= identities(before).drop_last());
        Teardown { record, phase: Phase::Forget }
    }

    /// Goes on after the action was performed.
    pub fn performed(self) -> (r: Teardown)
        requires
            self@.wf(),
        ensures
            r@ == self@.after(),
            r@.wf(),
    {
        match self.phase {
            Phase::Mark => Teardown { record: self.record, phase: Phase::Inspect },
            Phase::Unmount => self.forget(),
            Phase::Forget => Self::select(self.record),
            Phase::Inspect => self,
            Phase::Done => self,
        }
    }

    /// Goes on after it was found out what is mounted at the path of the pending mount.
    pub fn inspected(self, current: Option<&MountIdentity>) -> (r: Result<Teardown, PendingChanged>)
        requires
            self@.wf(),
            self@.phase == Phase::Inspect,
        ensures
            match self@.after_inspection(opt_identity_ref(current)) {
                Ok(next) => r matches Ok(t) && t@ == next && t@.wf(),
                Err(e) => r == Err::<Teardown, PendingChanged>(e),
            },
    {
        match pending_unmount_recovered(&self.record, current) {
            Err(e) => Err(e),
            Ok(true) => Ok(self.forget()),
            Ok(false) => Ok(Teardown { record: self.record, phase: Phase::Unmount }),
        }
    }
}

// ---------------------------------------------------------------------------
// What a teardown may touch
// ---------------------------------------------------------------------------

/// A mount is unmounted only when what was found at its path is the recorded mount.
pub proof fn law_only_the_recorded_mount_is_unmounted(
    s: TeardownState,
    current: Option<IdentitySpec>,
)
    requires
        s.wf(),
        s.phase == Phase::Inspect,
        s.after_inspection(current) matches Ok(next) && next.phase == Phase::Unmount,
    ensures
        current is Some,
        same_mount(s.record.mounts.last(), current->0),
        s.after_inspection(current)->Ok_0.action() == ActionSpec::Unmount(
            s.record.mounts.last().path,
        ),
{
}

/// A single name is a path of one component.
proof fn lemma_single_name(name: Seq<char>)
    requires
        name == ETC@ || name == VAR@,
    ensures
        only_names(name),
        components(name) == seq![ComponentSpec::Normal(name)],
{
    reveal_strlit("etc");
    reveal_strlit("var");
    reveal_strlit("/");
    reveal_strlit(".");
    reveal_strlit("..");
    crate::paths::lemma_not_absolute(name);
    assert(split_char(name, '/') == seq![name]) by {
        let a = name.drop_last();
        let b = a.drop_last();
        let c = b.drop_last();
        assert(c =~= seq![]);
        assert(split_char(c, '/') =~= seq![seq![]]);
        assert(split_char(b, '/') =~= seq![b]) by {
            assert(seq![Seq::<char>::empty()].last().push(b.last()) =~= b);
        }
        assert(split_char(a, '/') =~= seq![a]) by {
            assert(seq![b].last().push(a.last()) =~= a);
        }
        assert(split_char(name, '/') =~= seq![name]) by {
            assert(seq![a].last().push(name.last()) =~= name);
        }
    }
    let parts = seq![name];
    assert(parts.drop_last() =~= seq![]);
    assert(part_components(parts) =~= seq![ComponentSpec::Normal(name)]) by {
        reveal_with_fuel(part_components, 2);
    }
    assert(components(name) =~= seq![ComponentSpec::Normal(name)]);
}

/// The mounts of a record that has its shape lie at and below its target, at different paths.
proof fn lemma_shaped_paths(record: RecordSpec)
    requires
        shape_error(record) is None,
    ensures
        forall|i: int|
            0 <= i < record.mounts.len() ==> starts_with(
                (#[trigger] record.mounts[i]).path,
                record.target,
            ),
        forall|i: int, j: int|
            0 <= i < j < record.mounts.len() ==> !path_eq(
                (#[trigger] record.mounts[i]).path,
                (#[trigger] record.mounts[j]).path,
            ),
        depth(record.mounts[1]) == depth(record.mounts[0]) + 1,
        depth(record.mounts[2]) == depth(record.mounts[0]) + 1,
{
    let t = record.target;
    let m = record.mounts;
    lemma_single_name(ETC@);
    lemma_single_name(VAR@);
    law_joined_names_stay_below(t, ETC@);
    law_joined_names_stay_below(t, VAR@);
    let n = components(t).len() as int;
    assert(components(t).subrange(0, n) =~= components(t));
    assert(components(m[1].path) == components(t) + seq![ComponentSpec::Normal(ETC@)]);
    assert(components(m[2].path) == components(t) + seq![ComponentSpec::Normal(VAR@)]);
    assert(components(m[1].path)[n] == ComponentSpec::Normal(ETC@));
    assert(components(m[2].path)[n] == ComponentSpec::Normal(VAR@));
    assert(ETC@ != VAR@) by {
        reveal_strlit("etc");
        reveal_strlit("var");
        assert(ETC@[0] != VAR@[0]);
    }
}

/// The mounts of a record that has its shape are all different, and in their order: the target comes
/// first, so it is unmounted last.
pub proof fn law_shaped_record_is_sorted(record: RecordSpec)
    requires
        shape_error(record) is None,
    ensures
        is_sorted(record.mounts),
        distinct(record.mounts),
        depth(record.mounts[0]) < depth(record.mounts[1]),
        depth(record.mounts[0]) < depth(record.mounts[2]),
{
    lemma_shaped_paths(record);
}

// ---------------------------------------------------------------------------
// Crashes
// ---------------------------------------------------------------------------

/// A teardown, what is on disk and what is mounted.
pub struct World {
    pub machine: TeardownState,
    /// The record on disk.
    pub disk: Option<RecordSpec>,
    pub mounted: Set<IdentitySpec>,
}

impl World {
    /// The action is performed: the disk holds what was written, and what is mounted tells
    /// the truth.
    pub open spec fn step(self) -> World {
        let m = self.machine;
        match m.phase {
            Phase::Mark => World { machine: m.after(), disk: Some(m.record), ..self },
            Phase::Inspect => {
                let last = m.record.mounts.last();
                let current = if self.mounted.contains(last) {
                    Some(last)
                } else {
                    None
                };
                match m.after_inspection(current) {
                    Ok(next) => World { machine: next, ..self },
                    Err(_) => self,
                }
            },
            Phase::Unmount => World {
                machine: m.after(),
                mounted: self.mounted.remove(m.record.mounts.last()),
                ..self
            },
            Phase::Forget => World {
                machine: m.after(),
                disk: if m.record.mounts.len() == 0 {
                    None
                } else {
                    Some(m.record)
                },
                ..self
            },
            Phase::Done => self,
        }
    }

    /// The process dies, and another begins with what is on disk, if there is anything.
    pub open spec fn crash(self) -> World {
        match self.disk {
            Some(record) => World { machine: teardown_start(record), ..self },
            None => self,
        }
    }

    /// A step or a crash.
    pub open spec fn event(self, crash: bool) -> World {
        if crash {
            self.crash()
        } else {
            self.step()
        }
    }
}

/// A world after a series of steps and crashes.
pub open spec fn world_after(w: World, crashes: Seq<bool>) -> World
    decreases crashes.len(),
{
    if crashes.len() == 0 {
        w
    } else {
        world_after(w, crashes.drop_last()).event(crashes.last())
    }
}

/// A world in which a teardown is about to begin: the record is on disk, and its mounts are
/// mounted.
pub open spec fn fresh_world(record: RecordSpec, mounted: Set<IdentitySpec>) -> World {
    World { machine: teardown_start(record), disk: Some(record), mounted }
}

/// Whether no mount is in a list twice.
pub open spec fn distinct(mounts: Seq<IdentitySpec>) -> bool {
    forall|i: int, j: int|
        0 <= i < j < mounts.len() ==> #[trigger] mounts[i] != #[trigger] mounts[j]
}

/// Whether of `all` the first `j` are mounted, and the others are not.
pub open spec fn first_are_mounted(all: Seq<IdentitySpec>, mounted: Set<IdentitySpec>, j: int) -> bool {
    &&& 0 <= j <= all.len()
    &&& forall|i: int| 0 <= i < all.len() ==> (mounted.contains(#[trigger] all[i]) <==> i < j)
}

/// Whether the record on disk tells of the first mounts of `all`, up to the one that may be
/// gone, which is then pending.
pub open spec fn disk_is_sound(all: Seq<IdentitySpec>, disk: Option<RecordSpec>, j: int) -> bool {
    match disk {
        None => j == 0,
        Some(d) => {
            let k = d.mounts.len() as int;
            &&& 0 < k <= all.len()
            &&& d.mounts == all.take(k)
            &&& j == k || (j == k - 1 && d.pending_unmount is Some)
            &&& d.pending_unmount is None || d.pending_unmount == Some(all[k - 1])
        },
    }
}

/// Whether a world is one that a teardown of `all` can be in, when the first `j` are left.
pub open spec fn world_is_sound(all: Seq<IdentitySpec>, w: World, j: int) -> bool {
    let m = w.machine;
    let k = m.record.mounts.len() as int;
    &&& distinct(all)
    &&& first_are_mounted(all, w.mounted, j)
    &&& disk_is_sound(all, w.disk, j)
    &&& m.wf()
    &&& k <= all.len()
    &&& m.record.mounts == all.take(k)
    &&& match m.phase {
        Phase::Mark => w.disk matches Some(d) && d.mounts == m.record.mounts,
        Phase::Inspect => w.disk == Some(m.record),
        Phase::Unmount => w.disk == Some(m.record) && j == k,
        Phase::Forget => j == k && (w.disk matches Some(d) && d.mounts.len() == k + 1
            && d.pending_unmount is Some),
        Phase::Done => j == 0 && w.disk is None,
    }
}

/// A step or a crash keeps a world sound, and unmounts at most the mount that is named on
/// disk.
proof fn lemma_event_keeps_sound(all: Seq<IdentitySpec>, w: World, j: int, crash: bool) -> (k: int)
    requires
        world_is_sound(all, w, j),
    ensures
        world_is_sound(all, w.event(crash), k),
        j - 1 <= k <= j,
        forall|x: IdentitySpec|
            !all.contains(x) ==> (w.event(crash).mounted.contains(x) <==> w.mounted.contains(x)),
{
    let m = w.machine;
    let n = m.record.mounts.len() as int;
    let next = w.event(crash);
    if crash {
        if w.disk is Some {
            let d = w.disk->0;
            let kd = d.mounts.len() as int;
            assert(next.machine.record.mounts == all.take(kd));
        }
        j
    } else {
        match m.phase {
            Phase::Mark => j,
            Phase::Inspect => {
                let last = m.record.mounts.last();
                assert(last == all[n - 1]);
                assert(w.mounted.contains(last) <==> n - 1 < j);
                assert(all.take(n).drop_last() =~= all.take(n - 1));
                assert(same_mount(last, last));
                j
            },
            Phase::Unmount => {
                let last = m.record.mounts.last();
                assert(last == all[n - 1]);
                assert(all.take(n).drop_last() =~= all.take(n - 1));
                assert forall|i: int| 0 <= i < all.len() implies (next.mounted.contains(
                    #[trigger] all[i],
                ) <==> i < j - 1) by {
                    if i != n - 1 {
                        assert(all[i] != all[n - 1]);
                    }
                }
                assert(all.contains(last)) by {
                    assert(all[n - 1] == last);
                }
                j - 1
            },
            Phase::Forget => {
                if n == 0 {
                    assert(next.machine.record.mounts =~= all.take(0));
                }
                j
            },
            Phase::Done => j,
        }
    }
}

/// Whenever and however often a teardown is interrupted and begins anew with the record on disk,
/// what is left of the mounts is a first part of them, the record on disk names exactly these and
/// at most one more, which is then the pending one; and no other mount is ever touched.
///
/// Which of these records are accepted when a teardown begins anew is stated by
/// [`law_announced_teardown_is_accepted`] and [`law_records_between_marks`].
pub proof fn law_crashes_are_recoverable(
    record: RecordSpec,
    mounted: Set<IdentitySpec>,
    crashes: Seq<bool>,
) -> (j: int)
    requires
        record.mounts.len() > 0,
        record.pending_unmount is None,
        distinct(record.mounts),
        forall|i: int| 0 <= i < record.mounts.len() ==> mounted.contains(
            #[trigger] record.mounts[i],
        ),
    ensures
        world_is_sound(record.mounts, world_after(fresh_world(record, mounted), crashes), j),
        forall|x: IdentitySpec|
            !record.mounts.contains(x) ==> (world_after(
                fresh_world(record, mounted),
                crashes,
            ).mounted.contains(x) <==> mounted.contains(x)),
    decreases crashes.len(),
{
    let all = record.mounts;
    let w0 = fresh_world(record, mounted);
    if crashes.len() == 0 {
        assert(all.take(all.len() as int) =~= all);
        assert(world_is_sound(all, w0, all.len() as int));
        all.len() as int
    } else {
        let j = law_crashes_are_recoverable(record, mounted, crashes.drop_last());
        lemma_event_keeps_sound(all, world_after(w0, crashes.drop_last()), j, crashes.last())
    }
}

/// How many steps are left when no crash comes any more.
pub open spec fn steps_left(s: TeardownState) -> int {
    match s.phase {
        Phase::Mark => 4 * s.record.mounts.len() as int,
        Phase::Inspect => 4 * s.record.mounts.len() - 1,
        Phase::Unmount => 4 * s.record.mounts.len() - 2,
        Phase::Forget => 4 * s.record.mounts.len() as int + 1,
        Phase::Done => 0,
    }
}

/// A teardown that is left alone comes to its end, and then nothing of what was recorded is
/// mounted and no record is left.
pub proof fn law_teardown_ends(all: Seq<IdentitySpec>, w: World, j: int)
    requires
        world_is_sound(all, w, j),
    ensures
        w.machine.phase != Phase::Done ==> 0 <= steps_left(w.step().machine) < steps_left(w.machine),
        w.machine.phase == Phase::Done ==> w.disk is None && forall|i: int|
            0 <= i < all.len() ==> !w.mounted.contains(#[trigger] all[i]),
{
    if w.machine.phase == Phase::Inspect {
        let last = w.machine.record.mounts.last();
        assert(same_mount(last, last));
    }
}

/// A mount is unmounted only while the record on disk names it as pending.
pub proof fn law_unmount_is_announced(all: Seq<IdentitySpec>, w: World, j: int)
    requires
        world_is_sound(all, w, j),
        w.machine.phase == Phase::Unmount,
    ensures
        w.disk matches Some(d) && d.pending_unmount == Some(w.machine.record.mounts.last())
            && w.mounted.contains(w.machine.record.mounts.last()),
{
}

// ---------------------------------------------------------------------------
// Judging the record again
// ---------------------------------------------------------------------------

/// Where something is mounted at and below a target.
pub open spec fn paths_within(mounted: Set<IdentitySpec>, target: Seq<char>) -> Set<
    Seq<ComponentSpec>,
> {
    Set::new(
        |c: Seq<ComponentSpec>|
            exists|x: IdentitySpec| #[trigger]
                mounted.contains(x) && starts_with(x.path, target) && components(x.path) == c,
    )
}

/// Whether what was found at a path is what is mounted there.
pub open spec fn finds(found: Found, path: Seq<char>, mounted: Set<IdentitySpec>) -> bool {
    match found {
        Found::Mounted(m) => mounted.contains(m@) && path_eq(m@.path, path),
        Found::Missing => forall|x: IdentitySpec| #[trigger]
            mounted.contains(x) ==> !path_eq(x.path, path),
        Found::Failed => false,
    }
}

/// Whether an observation tells what is mounted: in the namespace of the record, at and below its
/// target, and at the path of each of its mounts. `findmnt` may fail on the target, and below it
/// where nothing is mounted at or below it.
pub open spec fn tells(o: Observed, record: RecordSpec, mounted: Set<IdentitySpec>) -> bool {
    &&& o.namespace == (record.namespace_dev, record.namespace_ino)
    &&& match o.subtree {
        Some(list) => forest_targets(list@, list@.len()) == paths_within(mounted, record.target),
        None => paths_within(mounted, record.target) == Set::<Seq<ComponentSpec>>::empty(),
    }
    &&& o.target is Failed || finds(o.target, record.target, mounted)
    &&& o.current@.len() == record.mounts.len()
    &&& forall|i: int|
        0 <= i < record.mounts.len() ==> finds(
            #[trigger] o.current@[i],
            record.mounts[i].path,
            mounted,
        )
}

/// Whether nothing is mounted at and below the target of a record but what the record names.
pub open spec fn names_all_within(record: RecordSpec, mounted: Set<IdentitySpec>) -> bool {
    forall|x: IdentitySpec| #[trigger]
        mounted.contains(x) && starts_with(x.path, record.target) ==> record.mounts.contains(x)
}

/// Two records that differ at most in their mounts and what is pending.
pub open spec fn same_but_mounts(a: RecordSpec, b: RecordSpec) -> bool {
    a == (RecordSpec { mounts: a.mounts, pending_unmount: a.pending_unmount, ..b })
}

/// A teardown changes nothing in a record but its mounts and what is pending.
proof fn lemma_world_keeps_record(record: RecordSpec, mounted: Set<IdentitySpec>, crashes: Seq<bool>)
    ensures
        ({
            let w = world_after(fresh_world(record, mounted), crashes);
            &&& same_but_mounts(w.machine.record, record)
            &&& w.disk matches Some(d) ==> same_but_mounts(d, record)
        }),
    decreases crashes.len(),
{
    if crashes.len() > 0 {
        lemma_world_keeps_record(record, mounted, crashes.drop_last());
    }
}

/// What a teardown left of a shaped record is usable while it names its last mount as pending.
proof fn lemma_rest_is_usable(record: RecordSpec, d: RecordSpec)
    requires
        shape_error(record) is None,
        same_but_mounts(d, record),
        0 < d.mounts.len() <= record.mounts.len(),
        d.mounts == record.mounts.take(d.mounts.len() as int),
        d.pending_unmount == Some(d.mounts.last()),
    ensures
        usable_error(d) is None,
{
    let k = d.mounts.len() as int;
    let full = RecordSpec { pending_unmount: None, ..record };
    law_full_records_are_judged_alike(full);
    assert forall|i: int| 0 <= i < k implies path_eq(
        (#[trigger] d.mounts[i]).path,
        expected_paths(d.target)[i],
    ) by {
        assert(d.mounts[i] == record.mounts[i]);
    }
    assert(d.mounts[0] == record.mounts[0]);
    assert forall|i: int| 1 <= i < k implies (#[trigger] d.mounts[i]).readonly
        == !d.writable_state by {
        assert(d.mounts[i] == record.mounts[i]);
    }
    assert(same_mount(d.mounts[k - 1], d.mounts.last()));
    assert(is_recorded(d, d.mounts.last()));
}

/// A record whose mounts are the first of those of a shaped record is accepted when an observation
/// tells that these are mounted, or all of them but the last, which is then pending.
proof fn lemma_sound_record_is_accepted(
    record: RecordSpec,
    d: RecordSpec,
    mounted: Set<IdentitySpec>,
    j: int,
    o: Observed,
)
    requires
        shape_error(record) is None,
        names_all_within(record, mounted),
        same_but_mounts(d, record),
        usable_error(d) is None,
        first_are_mounted(record.mounts, mounted, j),
        0 < d.mounts.len() <= record.mounts.len(),
        d.mounts == record.mounts.take(d.mounts.len() as int),
        j == d.mounts.len() || (j == d.mounts.len() - 1 && d.pending_unmount == Some(
            d.mounts.last(),
        )),
        tells(o, d, mounted),
    ensures
        is_verdict(Ok(()), d, o),
{
    let all = record.mounts;
    let k = d.mounts.len() as int;
    let last = components(all[k - 1].path);
    let within = paths_within(mounted, record.target);
    let expected = recorded_paths(d.mounts);
    lemma_shaped_paths(record);
    assert(d.mounts.last() == all[k - 1]);
    // What is mounted within the target are the first mounts of the record.
    assert forall|c: Seq<ComponentSpec>| #[trigger] within.contains(c) implies exists|i: int|
        0 <= i < j && components((#[trigger] all[i]).path) == c by {
        let x = choose|x: IdentitySpec| #[trigger]
            mounted.contains(x) && starts_with(x.path, record.target) && components(x.path) == c;
        assert(all.contains(x));
        let i = choose|i: int| 0 <= i < all.len() && all[i] == x;
        assert(mounted.contains(all[i]));
    }
    assert forall|i: int| 0 <= i < j implies within.contains(
        components((#[trigger] all[i]).path),
    ) by {
        assert(mounted.contains(all[i]));
    }
    if j == k {
        assert forall|c: Seq<ComponentSpec>| within.contains(c) == expected.contains(c) by {
            if within.contains(c) {
                let i = choose|i: int| 0 <= i < j && components((#[trigger] all[i]).path) == c;
                assert(d.mounts[i].path == all[i].path);
            }
            if expected.contains(c) {
                let i = choose|i: int|
                    0 <= i < d.mounts.len() && components(#[trigger] d.mounts[i].path) == c;
                assert(d.mounts[i].path == all[i].path);
            }
        }
        assert(within =~= expected);
    } else {
        let reduced = expected.remove(last);
        assert forall|c: Seq<ComponentSpec>| within.contains(c) == reduced.contains(c) by {
            if within.contains(c) {
                let i = choose|i: int| 0 <= i < j && components((#[trigger] all[i]).path) == c;
                assert(d.mounts[i].path == all[i].path);
                assert(!path_eq(all[i].path, all[k - 1].path));
            }
            if reduced.contains(c) {
                let i = choose|i: int|
                    0 <= i < d.mounts.len() && components(#[trigger] d.mounts[i].path) == c;
                assert(d.mounts[i].path == all[i].path);
            }
        }
        assert(within =~= reduced);
    }
    if o.subtree is None {
        assert(j == 0) by {
            if j > 0 {
                assert(within.contains(components(all[0].path)));
            }
        }
        assert(o.target.mount() is None) by {
            match o.target {
                Found::Mounted(m) => {
                    assert(mounted.contains(m@));
                    let c = components(record.target);
                    assert(c.subrange(0, c.len() as int) =~= c);
                    assert(within.contains(components(m@.path)));
                },
                _ => {},
            }
        }
        assert(path_eq(d.mounts[0].path, record.target)) by {
            assert(d.mounts[0] == all[0]);
        }
    }
    assert(topology_holds(d, actual_paths(d, o)->0));
    assert forall|i: int| 0 <= i < k implies mount_finding(
        d,
        #[trigger] d.mounts[i],
        o.current@[i],
    ) is Fine by {
        assert(d.mounts[i] == all[i]);
        assert(finds(o.current@[i], d.mounts[i].path, mounted));
        match o.current@[i] {
            Found::Mounted(m) => {
                assert(starts_with(m@.path, record.target));
                assert(all.contains(m@));
                let n = choose|n: int| 0 <= n < all.len() && all[n] == m@;
                if n < i {
                    assert(!path_eq(all[n].path, all[i].path));
                }
                if i < n {
                    assert(!path_eq(all[i].path, all[n].path));
                }
            },
            Found::Missing => {
                if i < j {
                    assert(mounted.contains(all[i]));
                }
            },
            Found::Failed => {},
        }
    }
    lemma_no_finding(d, o.current@, 0);
}

/// A teardown that was interrupted, at whatever point and however often, is accepted when it is
/// taken up again, as long as the record on disk names a mount as pending: also where that mount is
/// gone, and also where it was the last one and `findmnt` has nothing to report of the target.
pub proof fn law_announced_teardown_is_accepted(
    record: RecordSpec,
    mounted: Set<IdentitySpec>,
    crashes: Seq<bool>,
    o: Observed,
)
    requires
        shape_error(record) is None,
        record.pending_unmount is None,
        forall|i: int| 0 <= i < record.mounts.len() ==> mounted.contains(
            #[trigger] record.mounts[i],
        ),
        names_all_within(record, mounted),
        ({
            let w = world_after(fresh_world(record, mounted), crashes);
            w.disk matches Some(d) && d.pending_unmount is Some && tells(o, d, w.mounted)
        }),
    ensures
        is_verdict(
            Ok(()),
            world_after(fresh_world(record, mounted), crashes).disk->0,
            o,
        ),
{
    let w = world_after(fresh_world(record, mounted), crashes);
    let d = w.disk->0;
    law_shaped_record_is_sorted(record);
    let j = law_crashes_are_recoverable(record, mounted, crashes);
    lemma_world_keeps_record(record, mounted, crashes);
    lemma_names_all_within_stays(record, mounted, w.mounted);
    lemma_rest_is_usable(record, d);
    lemma_sound_record_is_accepted(record, d, w.mounted, j, o);
}

/// What is unmounted leaves the record naming all there is.
proof fn lemma_names_all_within_stays(
    record: RecordSpec,
    before: Set<IdentitySpec>,
    after: Set<IdentitySpec>,
)
    requires
        names_all_within(record, before),
        forall|x: IdentitySpec|
            !record.mounts.contains(x) ==> (after.contains(x) <==> before.contains(x)),
    ensures
        names_all_within(record, after),
{
    assert forall|x: IdentitySpec| #[trigger]
        after.contains(x) && starts_with(x.path, record.target) implies record.mounts.contains(
        x,
    ) by {
        if !record.mounts.contains(x) {
            assert(before.contains(x));
        }
    }
}

/// A record on disk without a pending teardown names exactly the mounts that are left. It is
/// accepted while no mount was unmounted yet; the one that is written between two mounts has lost
/// one already and names none as pending, so it counts as incomplete.
pub proof fn law_records_between_marks(
    record: RecordSpec,
    mounted: Set<IdentitySpec>,
    crashes: Seq<bool>,
    o: Observed,
)
    requires
        shape_error(record) is None,
        record.pending_unmount is None,
        forall|i: int| 0 <= i < record.mounts.len() ==> mounted.contains(
            #[trigger] record.mounts[i],
        ),
        names_all_within(record, mounted),
        ({
            let w = world_after(fresh_world(record, mounted), crashes);
            w.disk matches Some(d) && d.pending_unmount is None && tells(o, d, w.mounted)
        }),
    ensures
        ({
            let w = world_after(fresh_world(record, mounted), crashes);
            let d = w.disk->0;
            &&& first_are_mounted(record.mounts, w.mounted, d.mounts.len() as int)
            &&& d.mounts.len() == 3 ==> is_verdict(Ok(()), d, o)
            &&& d.mounts.len() < 3 ==> is_verdict(
                Err(RecordError::Shape(ShapeError::MountCount)),
                d,
                o,
            )
        }),
{
    let w = world_after(fresh_world(record, mounted), crashes);
    let d = w.disk->0;
    law_shaped_record_is_sorted(record);
    let j = law_crashes_are_recoverable(record, mounted, crashes);
    lemma_world_keeps_record(record, mounted, crashes);
    lemma_names_all_within_stays(record, mounted, w.mounted);
    if d.mounts.len() == 3 {
        assert(d.mounts =~= record.mounts);
        assert(d == record);
        lemma_sound_record_is_accepted(record, d, w.mounted, j, o);
    }
}

// ---------------------------------------------------------------------------
// Laws of the course
// ---------------------------------------------------------------------------

/// Sorting keeps every mount, adds none, and puts each mount behind those that it lies in.
pub proof fn law_deeper_mounts_come_later(out: Seq<IdentitySpec>, mounts: Seq<IdentitySpec>)
    requires
        is_depth_sort(out, mounts),
    ensures
        out.len() == mounts.len(),
        forall|k: int| 0 <= k < out.len() ==> mounts.contains(#[trigger] out[k]),
        forall|k: int| 0 <= k < mounts.len() ==> out.contains(#[trigger] mounts[k]),
        forall|i: int, j: int|
            0 <= i < out.len() && 0 <= j < out.len() && components(#[trigger] out[i].path).len()
                < components(#[trigger] out[j].path).len() ==> i < j,
{
    let order = choose|order: Seq<int>|
        is_depth_order(mounts, order, 0) && out == #[trigger] at_positions(mounts, order);
    assert forall|k: int| 0 <= k < out.len() implies mounts.contains(#[trigger] out[k]) by {
        assert(out[k] == mounts[order[k]]);
    }
    assert forall|i: int, j: int|
        0 <= i < out.len() && 0 <= j < out.len() && components(#[trigger] out[i].path).len()
            < components(#[trigger] out[j].path).len() implies i < j by {
        if j < i {
            assert(depth(mounts[order[j]]) <= depth(mounts[order[i]]));
        }
    }
    assert(order.no_duplicates()) by {
        assert forall|i: int, j: int| 0 <= i < order.len() && 0 <= j < order.len() && i != j implies order[i]
            != order[j] by {
            if i < j {
                let p = order[i];
                let q = order[j];
            } else {
                let p = order[j];
                let q = order[i];
            }
        }
    }
    lemma_positions_are_all(order, mounts.len());
    assert forall|k: int| 0 <= k < mounts.len() implies out.contains(#[trigger] mounts[k]) by {
        assert(order.contains(k));
        let i = choose|i: int| 0 <= i < order.len() && order[i] == k;
        assert(out[i] == mounts[k]);
    }
}

/// As many different positions as there are are all of them.
proof fn lemma_positions_are_all(order: Seq<int>, n: nat)
    requires
        order.len() == n,
        order.no_duplicates(),
        forall|i: int| 0 <= i < order.len() ==> 0 <= #[trigger] order[i] < n,
    ensures
        forall|k: int| 0 <= k < n ==> order.contains(k),
{
    let there = order.to_set();
    let all = vstd::set_lib::set_int_range(0, n as int);
    order.unique_seq_to_set();
    vstd::set_lib::lemma_int_range(0, n as int);
    assert(there.subset_of(all)) by {
        assert forall|k: int| there.contains(k) implies all.contains(k) by {
            let i = choose|i: int| 0 <= i < order.len() && order[i] == k;
        }
    }
    vstd::set_lib::lemma_subset_equality(there, all);
    assert forall|k: int| 0 <= k < n implies order.contains(k) by {
        assert(all.contains(k));
        assert(there.contains(k));
    }
}

/// The last mount of a record goes first. Before that the record is written with it as pending, and
/// it is looked at; when it is gone the record is written without it, or removed if it was the last
/// one. Nothing else of the record changes.
pub proof fn law_course(record: RecordSpec)
    requires
        record.mounts.len() > 0,
    ensures
        ({
            let last = record.mounts.last();
            let marked = RecordSpec { pending_unmount: Some(last), ..record };
            let rest = RecordSpec {
                mounts: record.mounts.drop_last(),
                pending_unmount: None,
                ..record
            };
            let mark = teardown_start(record);
            let inspect = mark.after();
            let gone = inspect.after_inspection(None);
            let there = inspect.after_inspection(Some(last));
            &&& mark.action() == ActionSpec::Write(marked)
            &&& inspect.action() == ActionSpec::Inspect(last.path)
            &&& gone matches Ok(g) && g.record == rest && g.action() == if rest.mounts.len() == 0 {
                ActionSpec::Remove
            } else {
                ActionSpec::Write(rest)
            }
            &&& there matches Ok(t) && t.action() == ActionSpec::Unmount(last.path) && t.after()
                == gone->Ok_0
            &&& gone->Ok_0.after() == teardown_start(rest)
            &&& rest.mounts.len() == 0 ==> gone->Ok_0.after().action() == ActionSpec::Done
        }),
{
    let last = record.mounts.last();
    assert(same_mount(last, last));
}

/// A mount that is found in place of the pending one, and is another by its ID, its source, its
/// attribute or its path, is not touched: the teardown stops.
pub proof fn law_other_mounts_stop_the_teardown(record: RecordSpec, current: IdentitySpec)
    requires
        record.mounts.len() > 0,
    ensures
        ({
            let last = record.mounts.last();
            let inspect = teardown_start(record).after();
            inspect.after_inspection(Some(current)) is Err <==> current.id != last.id
                || current.source != last.source || current.readonly != last.readonly || components(
                current.path,
            ) != components(last.path)
        }),
{
}

} // verus!
