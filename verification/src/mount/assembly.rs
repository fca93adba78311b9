//! Mounting a deployment and its state.
//!
//! [`Assembly`] holds where the mounting is. The caller performs [`Assembly::action`] and reports
//! what came of it; where that fails, [`Assembly::failed`] says what is to be unmounted again.
//!
//! Each mount is handed out with its attribute: the deployment is always read-only, its `etc` and
//! `var` are unless they are to be writable.

use vstd::prelude::*;

use crate::mount::record::{
    expected_paths, identities, law_honest_record_has_shape, shape_error, IdentitySpec,
    MountIdentity, MountRecord, RecordSpec, ETC, VAR,
};
use crate::paths::{join_path, joined_path, law_joined_path};
use crate::text::{concat2, concat3, no_texts, opt_str, push_text, texts};

verus! {

/// A part of a deployment that is mounted.
#[derive(Debug, Clone, Copy, PartialEq, Eq, Structural)]
pub enum Part {
    Root,
    Etc,
    Var,
}

/// A mount that is to be made.
#[derive(Debug)]
pub struct Attachment {
    pub part: Part,
    pub path: String,
    /// Whether the mount is read-only; it has to be before it is attached.
    pub readonly: bool,
}

/// A mount that is to be made, in terms of texts.
pub struct AttachmentSpec {
    pub part: Part,
    pub path: Seq<char>,
    pub readonly: bool,
}

impl Attachment {
    pub open spec fn view(&self) -> AttachmentSpec {
        AttachmentSpec { part: self.part, path: self.path@, readonly: self.readonly }
    }
}

/// The mounts of a list, in terms of texts.
pub open spec fn attachments(list: Seq<Attachment>) -> Seq<AttachmentSpec> {
    Seq::new(list.len(), |i: int| list[i]@)
}

/// The mount of a part: the deployment read-only at the target, its state in it, read-only unless
/// it is to be writable.
pub open spec fn attachment_of(target: Seq<char>, writable: bool, part: Part) -> AttachmentSpec {
    match part {
        Part::Root => AttachmentSpec { part, path: target, readonly: true },
        Part::Etc => AttachmentSpec { part, path: joined_path(target, ETC@), readonly: !writable },
        Part::Var => AttachmentSpec { part, path: joined_path(target, VAR@), readonly: !writable },
    }
}

/// The mounts of a deployment, in the order in which they are made.
pub open spec fn all_attachments(target: Seq<char>, writable: bool) -> Seq<AttachmentSpec> {
    seq![
        attachment_of(target, writable, Part::Root),
        attachment_of(target, writable, Part::Etc),
        attachment_of(target, writable, Part::Var),
    ]
}

/// Where an assembly is.
#[derive(Debug, Clone, Copy, PartialEq, Eq, Structural)]
pub enum AssemblyStage {
    AttachRoot,
    OpenRoot,
    Namespace,
    RootIdentity,
    AttachEtc,
    EtcIdentity,
    AttachVar,
    VarIdentity,
    CreateRecord,
    Done,
}

/// What is to be done next.
#[derive(Debug)]
pub enum AssemblyAction<'a> {
    /// Make a mount.
    Attach(Attachment),
    /// Open the directory that is now mounted at the target.
    OpenRoot,
    /// Find out which mount namespace this is.
    Namespace,
    /// Identify the mount at a path.
    Identify(String),
    /// Write the record.
    CreateRecord(&'a MountRecord),
    Done,
}

/// What is to be done next, in terms of texts.
pub enum ActionSpec {
    Attach(AttachmentSpec),
    OpenRoot,
    Namespace,
    Identify(Seq<char>),
    CreateRecord(RecordSpec),
    Done,
}

impl<'a> AssemblyAction<'a> {
    pub open spec fn view(&self) -> ActionSpec {
        match *self {
            AssemblyAction::Attach(a) => ActionSpec::Attach(a@),
            AssemblyAction::OpenRoot => ActionSpec::OpenRoot,
            AssemblyAction::Namespace => ActionSpec::Namespace,
            AssemblyAction::Identify(path) => ActionSpec::Identify(path@),
            AssemblyAction::CreateRecord(record) => ActionSpec::CreateRecord(record@),
            AssemblyAction::Done => ActionSpec::Done,
        }
    }
}

/// What came of it.
#[derive(Debug)]
pub enum AssemblyEvent {
    Performed,
    Namespace(u64, u64),
    Identity(MountIdentity),
}

/// What came of it, in terms of texts.
pub enum EventSpec {
    Performed,
    Namespace(u64, u64),
    Identity(IdentitySpec),
}

impl AssemblyEvent {
    pub open spec fn view(&self) -> EventSpec {
        match *self {
            AssemblyEvent::Performed => EventSpec::Performed,
            AssemblyEvent::Namespace(dev, ino) => EventSpec::Namespace(dev, ino),
            AssemblyEvent::Identity(m) => EventSpec::Identity(m@),
        }
    }
}

/// What is to be done after a failure.
#[derive(Debug)]
pub struct AssemblyFailure {
    /// The paths to unmount, in this order, up to the first that cannot be.
    pub unmount: Vec<String>,
    /// What was being done, where that is told beside the failure itself.
    pub context: Option<&'static str>,
    /// Whether a failure to unmount is told.
    pub tells_cleanup: bool,
}

/// Where an assembly is, in terms of texts.
pub struct AssemblyState {
    pub record: RecordSpec,
    /// What is mounted, in the order in which it was.
    pub owned: Seq<AttachmentSpec>,
    pub stage: AssemblyStage,
}

/// An assembly that is about to begin.
pub open spec fn assembly_start(sysroot: Seq<char>, target: Seq<char>, writable: bool) -> AssemblyState {
    AssemblyState {
        record: RecordSpec {
            sysroot,
            target,
            namespace_dev: 0,
            namespace_ino: 0,
            writable_state: writable,
            mounts: seq![],
            pending_unmount: None,
        },
        owned: seq![],
        stage: AssemblyStage::AttachRoot,
    }
}

impl AssemblyStage {
    /// The part that a stage mounts.
    pub open spec fn attaches(self) -> Option<Part> {
        match self {
            AssemblyStage::AttachRoot => Some(Part::Root),
            AssemblyStage::AttachEtc => Some(Part::Etc),
            AssemblyStage::AttachVar => Some(Part::Var),
            _ => None,
        }
    }

    /// The part whose mount a stage identifies.
    pub open spec fn identifies(self) -> Option<Part> {
        match self {
            AssemblyStage::RootIdentity => Some(Part::Root),
            AssemblyStage::EtcIdentity => Some(Part::Etc),
            AssemblyStage::VarIdentity => Some(Part::Var),
            _ => None,
        }
    }

    /// The stage that comes next.
    pub open spec fn next(self) -> AssemblyStage {
        match self {
            AssemblyStage::AttachRoot => AssemblyStage::OpenRoot,
            AssemblyStage::OpenRoot => AssemblyStage::Namespace,
            AssemblyStage::Namespace => AssemblyStage::RootIdentity,
            AssemblyStage::RootIdentity => AssemblyStage::AttachEtc,
            AssemblyStage::AttachEtc => AssemblyStage::EtcIdentity,
            AssemblyStage::EtcIdentity => AssemblyStage::AttachVar,
            AssemblyStage::AttachVar => AssemblyStage::VarIdentity,
            AssemblyStage::VarIdentity => AssemblyStage::CreateRecord,
            AssemblyStage::CreateRecord => AssemblyStage::Done,
            AssemblyStage::Done => AssemblyStage::Done,
        }
    }

    /// The stage that comes next.
    fn following(self) -> (r: AssemblyStage)
        ensures
            r == self.next(),
    {
        match self {
            AssemblyStage::AttachRoot => AssemblyStage::OpenRoot,
            AssemblyStage::OpenRoot => AssemblyStage::Namespace,
            AssemblyStage::Namespace => AssemblyStage::RootIdentity,
            AssemblyStage::RootIdentity => AssemblyStage::AttachEtc,
            AssemblyStage::AttachEtc => AssemblyStage::EtcIdentity,
            AssemblyStage::EtcIdentity => AssemblyStage::AttachVar,
            AssemblyStage::AttachVar => AssemblyStage::VarIdentity,
            AssemblyStage::VarIdentity => AssemblyStage::CreateRecord,
            AssemblyStage::CreateRecord => AssemblyStage::Done,
            AssemblyStage::Done => AssemblyStage::Done,
        }
    }
}

impl AssemblyState {
    /// The mount of a part.
    pub open spec fn attachment(self, part: Part) -> AttachmentSpec {
        attachment_of(self.record.target, self.record.writable_state, part)
    }

    /// What is to be done next.
    pub open spec fn action(self) -> ActionSpec {
        match self.stage {
            AssemblyStage::AttachRoot => ActionSpec::Attach(self.attachment(Part::Root)),
            AssemblyStage::AttachEtc => ActionSpec::Attach(self.attachment(Part::Etc)),
            AssemblyStage::AttachVar => ActionSpec::Attach(self.attachment(Part::Var)),
            AssemblyStage::OpenRoot => ActionSpec::OpenRoot,
            AssemblyStage::Namespace => ActionSpec::Namespace,
            AssemblyStage::RootIdentity => ActionSpec::Identify(self.attachment(Part::Root).path),
            AssemblyStage::EtcIdentity => ActionSpec::Identify(self.attachment(Part::Etc).path),
            AssemblyStage::VarIdentity => ActionSpec::Identify(self.attachment(Part::Var).path),
            AssemblyStage::CreateRecord => ActionSpec::CreateRecord(self.record),
            AssemblyStage::Done => ActionSpec::Done,
        }
    }

    /// Whether an event is one that the stage asks for.
    pub open spec fn fits(self, event: EventSpec) -> bool {
        match self.stage {
            AssemblyStage::Namespace => event is Namespace,
            AssemblyStage::RootIdentity
            | AssemblyStage::EtcIdentity
            | AssemblyStage::VarIdentity => event is Identity,
            AssemblyStage::Done => false,
            _ => event is Performed,
        }
    }

    /// How many mounts there are at a stage.
    pub open spec fn mount_count(self) -> int {
        match self.stage {
            AssemblyStage::AttachRoot => 0,
            AssemblyStage::OpenRoot
            | AssemblyStage::Namespace
            | AssemblyStage::RootIdentity
            | AssemblyStage::AttachEtc => 1,
            AssemblyStage::EtcIdentity | AssemblyStage::AttachVar => 2,
            _ => 3,
        }
    }

    /// How many mounts are identified at a stage.
    pub open spec fn identified_count(self) -> int {
        match self.stage {
            AssemblyStage::AttachRoot
            | AssemblyStage::OpenRoot
            | AssemblyStage::Namespace
            | AssemblyStage::RootIdentity => 0,
            AssemblyStage::AttachEtc | AssemblyStage::EtcIdentity => 1,
            AssemblyStage::AttachVar | AssemblyStage::VarIdentity => 2,
            _ => 3,
        }
    }

    /// What holds of an assembly at any time: what is mounted is a first part of what is to be
    /// mounted, and of that the record names what was identified.
    pub open spec fn wf(self) -> bool {
        &&& self.owned == all_attachments(self.record.target, self.record.writable_state).take(
            self.mount_count(),
        )
        &&& self.record.mounts.len() == self.identified_count()
        &&& self.record.pending_unmount is None
    }

    /// What follows from an event.
    pub open spec fn after(self, event: EventSpec) -> AssemblyState {
        let stage = self.stage.next();
        match self.stage {
            AssemblyStage::AttachRoot | AssemblyStage::AttachEtc | AssemblyStage::AttachVar => {
                AssemblyState {
                    owned: self.owned.push(self.attachment(self.stage.attaches()->0)),
                    stage,
                    ..self
                }
            },
            AssemblyStage::Namespace => AssemblyState {
                record: RecordSpec {
                    namespace_dev: event->Namespace_0,
                    namespace_ino: event->Namespace_1,
                    ..self.record
                },
                stage,
                ..self
            },
            AssemblyStage::RootIdentity
            | AssemblyStage::EtcIdentity
            | AssemblyStage::VarIdentity => AssemblyState {
                record: RecordSpec {
                    mounts: self.record.mounts.push(event->Identity_0),
                    ..self.record
                },
                stage,
                ..self
            },
            _ => AssemblyState { stage, ..self },
        }
    }

    /// What is told of a failure at a stage.
    pub open spec fn context(self) -> Option<Seq<char>> {
        match self.stage {
            AssemblyStage::AttachRoot => None,
            AssemblyStage::OpenRoot => Some("Opening mounted deployment root"@),
            AssemblyStage::Namespace => Some("Recording mount namespace identity"@),
            AssemblyStage::RootIdentity => Some("Recording deployment root mount"@),
            _ => Some("Assembling offline deployment mount"@),
        }
    }
}

/// The paths of mounts.
pub open spec fn attached_paths(list: Seq<AttachmentSpec>) -> Seq<Seq<char>> {
    Seq::new(list.len(), |i: int| list[i].path)
}

/// The assembly of a deployment's mounts.
#[derive(Debug)]
pub struct Assembly {
    record: MountRecord,
    owned: Vec<Attachment>,
    stage: AssemblyStage,
}

impl Assembly {
    /// Where the assembly is.
    pub closed spec fn view(&self) -> AssemblyState {
        AssemblyState { record: self.record@, owned: attachments(self.owned@), stage: self.stage }
    }

    /// An assembly that is about to begin.
    pub fn new(sysroot: &str, target: &str, writable: bool) -> (r: Assembly)
        ensures
            r@ == assembly_start(sysroot@, target@, writable),
            r@.wf(),
    {
        let record = MountRecord {
            sysroot: sysroot.to_string(),
            target: target.to_string(),
            namespace_dev: 0,
            namespace_ino: 0,
            writable_state: writable,
            mounts: Vec::new(),
            pending_unmount: None,
        };
        assert(identities(record.mounts@) =~= seq![]);
        let r = Assembly { record, owned: Vec::new(), stage: AssemblyStage::AttachRoot };
        assert(attachments(r.owned@) =~= seq![]);
        assert(all_attachments(target@, writable).take(0) =~= seq![]);
        r
    }

    /// Where the assembly is.
    pub fn stage(&self) -> (r: AssemblyStage)
        ensures
            r == self@.stage,
    {
        self.stage
    }

    /// The record as it is so far.
    pub fn record(&self) -> (r: &MountRecord)
        ensures
            r@ == self@.record,
    {
        &self.record
    }

    /// The mount of a part.
    fn attachment(&self, part: Part) -> (r: Attachment)
        ensures
            r@ == self@.attachment(part),
    {
        let target = self.record.target.as_str();
        let readonly = !self.record.writable_state;
        match part {
            Part::Root => Attachment { part, path: target.to_string(), readonly: true },
            Part::Etc => Attachment { part, path: join_path(target, ETC), readonly },
            Part::Var => Attachment { part, path: join_path(target, VAR), readonly },
        }
    }

    /// What is to be done next.
    pub fn action(&self) -> (r: AssemblyAction<'_>)
        ensures
            r@ == self@.action(),
    {
        match self.stage {
            AssemblyStage::AttachRoot => AssemblyAction::Attach(self.attachment(Part::Root)),
            AssemblyStage::AttachEtc => AssemblyAction::Attach(self.attachment(Part::Etc)),
            AssemblyStage::AttachVar => AssemblyAction::Attach(self.attachment(Part::Var)),
            AssemblyStage::OpenRoot => AssemblyAction::OpenRoot,
            AssemblyStage::Namespace => AssemblyAction::Namespace,
            AssemblyStage::RootIdentity => AssemblyAction::Identify(
                self.attachment(Part::Root).path,
            ),
            AssemblyStage::EtcIdentity => AssemblyAction::Identify(
                self.attachment(Part::Etc).path,
            ),
            AssemblyStage::VarIdentity => AssemblyAction::Identify(
                self.attachment(Part::Var).path,
            ),
            AssemblyStage::CreateRecord => AssemblyAction::CreateRecord(&self.record),
            AssemblyStage::Done => AssemblyAction::Done,
        }
    }

    /// Adds a mount to what is mounted.
    fn own(&mut self, part: Part)
        ensures
            final(self)@ == (AssemblyState {
                owned: old(self)@.owned.push(old(self)@.attachment(part)),
                ..old(self)@
            }),
    {
        let ghost before = self.owned@;
        let a = self.attachment(part);
        self.owned.push(a);
        assert(attachments(self.owned@) =~= attachments(before).push(a@));
    }

    /// Adds a mount to the record.
    fn identify(&mut self, mount: MountIdentity)
        ensures
            final(self)@ == (AssemblyState {
                record: RecordSpec {
                    mounts: old(self)@.record.mounts.push(mount@),
                    ..old(self)@.record
                },
                ..old(self)@
            }),
    {
        let ghost before = self.record.mounts@;
        self.record.mounts.push(mount);
        assert(identities(self.record.mounts@) =~= identities(before).push(mount@));
    }

    /// Goes on after what was to be done was done.
    pub fn report(&mut self, event: AssemblyEvent)
        requires
            old(self)@.wf(),
            old(self)@.fits(event@),
        ensures
            final(self)@ == old(self)@.after(event@),
            final(self)@.wf(),
    {
        let ghost before = self@;
        proof {
            lemma_after_keeps_wf(before, event@);
        }
        let next = self.stage.following();
        match event {
            AssemblyEvent::Namespace(dev, ino) => {
                self.record.namespace_dev = dev;
                self.record.namespace_ino = ino;
            },
            AssemblyEvent::Identity(mount) => {
                self.identify(mount);
            },
            AssemblyEvent::Performed => match self.stage {
                AssemblyStage::AttachRoot => self.own(Part::Root),
                AssemblyStage::AttachEtc => self.own(Part::Etc),
                AssemblyStage::AttachVar => self.own(Part::Var),
                _ => {},
            },
        }
        self.stage = next;
    }

    /// What is to be done when what was to be done failed: everything that was mounted is unmounted,
    /// the last first.
    pub fn failed(&self) -> (r: AssemblyFailure)
        ensures
            texts(r.unmount@) == attached_paths(self@.owned).reverse(),
            opt_str(r.context) == self@.context(),
            r.tells_cleanup == (self@.stage != AssemblyStage::RootIdentity),
    {
        let mut unmount = no_texts();
        let ghost all = attached_paths(attachments(self.owned@));
        let mut i: usize = self.owned.len();
        assert(all.len() == self.owned@.len());
        assert(all.reverse().take(0) =~= seq![]);
        while i > 0
            invariant
                i <= self.owned@.len(),
                all == attached_paths(attachments(self.owned@)),
                all.len() == self.owned@.len(),
                texts(unmount@) == all.reverse().take(self.owned@.len() - i),
            decreases i,
        {
            i = i - 1;
            push_text(&mut unmount, self.owned[i].path.as_str());
            assert(attachments(self.owned@)[i as int] == self.owned@[i as int]@);
            assert(all.reverse().take(self.owned@.len() - i) =~= all.reverse().take(
                self.owned@.len() - i - 1,
            ).push(all[i as int]));
        }
        assert(all.reverse().take(self.owned@.len() as int) =~= all.reverse());
        let context = match self.stage {
            AssemblyStage::AttachRoot => None,
            AssemblyStage::OpenRoot => Some("Opening mounted deployment root"),
            AssemblyStage::Namespace => Some("Recording mount namespace identity"),
            AssemblyStage::RootIdentity => Some("Recording deployment root mount"),
            _ => Some("Assembling offline deployment mount"),
        };
        let tells_cleanup = match self.stage {
            AssemblyStage::RootIdentity => false,
            _ => true,
        };
        AssemblyFailure { unmount, context, tells_cleanup }
    }
}

/// What holds of an assembly holds after every event.
proof fn lemma_after_keeps_wf(s: AssemblyState, event: EventSpec)
    requires
        s.wf(),
        s.fits(event),
    ensures
        s.after(event).wf(),
{
    let all = all_attachments(s.record.target, s.record.writable_state);
    assert(all.take(1) =~= all.take(0).push(all[0]));
    assert(all.take(2) =~= all.take(1).push(all[1]));
    assert(all.take(3) =~= all.take(2).push(all[2]));
}

/// What is told of a failure, and of one to clean up after it.
pub open spec fn failure_text(context: Seq<char>, cleanup_error: Option<Seq<char>>) -> Seq<char> {
    match cleanup_error {
        Some(e) => context + " (cleanup also failed: "@ + e + ")"@,
        None => context,
    }
}

/// What is told of a failure, and of one to clean up after it.
pub fn failure_context(context: &str, cleanup_error: Option<&str>) -> (r: String)
    ensures
        r@ == failure_text(context@, opt_str(cleanup_error)),
{
    match cleanup_error {
        Some(e) => {
            let head = concat3(context, " (cleanup also failed: ", e);
            concat2(head.as_str(), ")")
        },
        None => context.to_string(),
    }
}

// ---------------------------------------------------------------------------
// Laws
// ---------------------------------------------------------------------------

/// An assembly after a series of events that fit.
pub open spec fn assembly_after(s: AssemblyState, events: Seq<EventSpec>) -> Option<AssemblyState>
    decreases events.len(),
{
    if events.len() == 0 {
        Some(s)
    } else {
        match assembly_after(s, events.drop_last()) {
            Some(before) => if before.fits(events.last()) {
                Some(before.after(events.last()))
            } else {
                None
            },
            None => None,
        }
    }
}

/// Whatever happens, what is mounted so far is a first part of what is to be mounted, each with its
/// attribute; and the record keeps what was asked for.
pub proof fn law_assembly_stays_well_formed(
    sysroot: Seq<char>,
    target: Seq<char>,
    writable: bool,
    events: Seq<EventSpec>,
)
    requires
        assembly_after(assembly_start(sysroot, target, writable), events) is Some,
    ensures
        ({
            let s = assembly_after(assembly_start(sysroot, target, writable), events)->0;
            &&& s.wf()
            &&& s.record.target == target
            &&& s.record.sysroot == sysroot
            &&& s.record.writable_state == writable
            &&& s.owned == all_attachments(target, writable).take(s.mount_count())
        }),
    decreases events.len(),
{
    let start = assembly_start(sysroot, target, writable);
    if events.len() == 0 {
        assert(all_attachments(target, writable).take(0) =~= seq![]);
    } else {
        law_assembly_stays_well_formed(sysroot, target, writable, events.drop_last());
        let before = assembly_after(start, events.drop_last())->0;
        lemma_after_keeps_wf(before, events.last());
    }
}

/// Every mount that is handed out has exactly its attribute: the deployment at the target is
/// read-only, and its `etc` and `var` are exactly if they are not to be writable.
pub proof fn law_mounts_are_handed_out_with_their_attribute(
    sysroot: Seq<char>,
    target: Seq<char>,
    writable: bool,
    events: Seq<EventSpec>,
)
    requires
        assembly_after(assembly_start(sysroot, target, writable), events) is Some,
    ensures
        assembly_after(
            assembly_start(sysroot, target, writable),
            events,
        )->0.action() matches ActionSpec::Attach(a) ==> match a.part {
            Part::Root => a.path == target && a.readonly,
            Part::Etc => a.path == joined_path(target, ETC@) && a.readonly == !writable,
            Part::Var => a.path == joined_path(target, VAR@) && a.readonly == !writable,
        },
{
    law_assembly_stays_well_formed(sysroot, target, writable, events);
}

/// An assembly that is done has mounted the deployment read-only at the target, its `etc` and `var`
/// in it, read-only exactly if they are not to be writable, and nothing else; its record names the
/// three mounts, and none as pending.
pub proof fn law_finished_assembly_mounted_all(
    sysroot: Seq<char>,
    target: Seq<char>,
    writable: bool,
    events: Seq<EventSpec>,
)
    requires
        assembly_after(assembly_start(sysroot, target, writable), events) is Some,
        assembly_after(assembly_start(sysroot, target, writable), events)->0.stage
            == AssemblyStage::Done,
    ensures
        ({
            let s = assembly_after(assembly_start(sysroot, target, writable), events)->0;
            &&& s.owned == all_attachments(target, writable)
            &&& attached_paths(s.owned) == expected_paths(target)
            &&& s.record.target == target
            &&& s.record.writable_state == writable
            &&& s.record.mounts.len() == 3
            &&& s.record.pending_unmount is None
        }),
{
    law_assembly_stays_well_formed(sysroot, target, writable, events);
    let all = all_attachments(target, writable);
    assert(all.take(3) =~= all);
    assert(attached_paths(all) =~= expected_paths(target));
}

/// Whenever an assembly fails, what it unmounts is exactly what it mounted, and what is mounted
/// within the target goes before the target itself.
pub proof fn law_failure_unmounts_what_was_mounted(
    sysroot: Seq<char>,
    target: Seq<char>,
    writable: bool,
    events: Seq<EventSpec>,
)
    requires
        assembly_after(assembly_start(sysroot, target, writable), events) is Some,
    ensures
        ({
            let s = assembly_after(assembly_start(sysroot, target, writable), events)->0;
            let unmounted = attached_paths(s.owned).reverse();
            &&& attached_paths(s.owned) == expected_paths(target).take(s.mount_count())
            &&& unmounted.len() > 0 ==> unmounted.last() == target
        }),
{
    law_assembly_stays_well_formed(sysroot, target, writable, events);
    let s = assembly_after(assembly_start(sysroot, target, writable), events)->0;
    assert(attached_paths(s.owned) =~= expected_paths(target).take(s.mount_count()));
}

/// Whether what was found is a mount as it was handed out.
pub open spec fn is_found(m: IdentitySpec, a: AttachmentSpec) -> bool {
    m.path == a.path && m.readonly == a.readonly
}

/// Whether the mounts that were identified are found as they were handed out.
pub open spec fn finds_what_it_made(s: AssemblyState, events: Seq<EventSpec>) -> bool
    decreases events.len(),
{
    events.len() == 0 || {
        &&& finds_what_it_made(s, events.drop_last())
        &&& assembly_after(s, events.drop_last()) matches Some(before)
            ==> (before.stage.identifies() matches Some(part) ==> (
        events.last() matches EventSpec::Identity(m) ==> is_found(m, before.attachment(part))))
    }
}

/// The mounts that a record names are those that were handed out.
proof fn lemma_recorded_as_made(
    sysroot: Seq<char>,
    target: Seq<char>,
    writable: bool,
    events: Seq<EventSpec>,
)
    requires
        assembly_after(assembly_start(sysroot, target, writable), events) is Some,
        finds_what_it_made(assembly_start(sysroot, target, writable), events),
    ensures
        ({
            let s = assembly_after(assembly_start(sysroot, target, writable), events)->0;
            forall|i: int|
                0 <= i < s.record.mounts.len() ==> is_found(
                    #[trigger] s.record.mounts[i],
                    all_attachments(target, writable)[i],
                )
        }),
    decreases events.len(),
{
    let start = assembly_start(sysroot, target, writable);
    if events.len() > 0 {
        lemma_recorded_as_made(sysroot, target, writable, events.drop_last());
        law_assembly_stays_well_formed(sysroot, target, writable, events.drop_last());
        let before = assembly_after(start, events.drop_last())->0;
        let s = assembly_after(start, events)->0;
        let all = all_attachments(target, writable);
        assert forall|i: int| 0 <= i < s.record.mounts.len() implies is_found(
            #[trigger] s.record.mounts[i],
            all[i],
        ) by {
            if i < before.record.mounts.len() {
                assert(s.record.mounts[i] == before.record.mounts[i]);
            } else {
                let part = before.stage.identifies()->0;
                assert(before.attachment(part) == all[i]);
            }
        }
    }
}

/// A record of three mounts that are as they were handed out has its shape.
proof fn lemma_made_record_has_shape(record: RecordSpec)
    requires
        record.mounts.len() == 3,
        record.pending_unmount is None,
        forall|i: int|
            0 <= i < record.mounts.len() ==> is_found(
                #[trigger] record.mounts[i],
                all_attachments(record.target, record.writable_state)[i],
            ),
    ensures
        shape_error(record) is None,
{
    let m = record.mounts;
    let (root, etc, var) = (m[0], m[1], m[2]);
    assert(m =~= seq![root, etc, var]);
    law_honest_record_has_shape(record, root, etc, var);
}

/// An assembly that finds its mounts as they were handed out writes a record that has its shape, so
/// that a teardown accepts it.
pub proof fn law_assembled_record_has_shape(
    sysroot: Seq<char>,
    target: Seq<char>,
    writable: bool,
    events: Seq<EventSpec>,
)
    requires
        assembly_after(assembly_start(sysroot, target, writable), events) is Some,
        finds_what_it_made(assembly_start(sysroot, target, writable), events),
        ({
            let s = assembly_after(assembly_start(sysroot, target, writable), events)->0;
            s.stage == AssemblyStage::CreateRecord || s.stage == AssemblyStage::Done
        }),
    ensures
        shape_error(
            assembly_after(assembly_start(sysroot, target, writable), events)->0.record,
        ) is None,
{
    law_assembly_stays_well_formed(sysroot, target, writable, events);
    lemma_recorded_as_made(sysroot, target, writable, events);
    let s = assembly_after(assembly_start(sysroot, target, writable), events)->0;
    lemma_made_record_has_shape(s.record);
}

/// An assembly attaches the deployment read-only, opens it, finds out the namespace and identifies the
/// mount; it attaches and identifies `etc`, then `var`, read-only unless they are to be writable; and
/// it writes a record of the sysroot, the target, the namespace, the mode and the three mounts that
/// were identified, in this order.
pub proof fn law_assembly_course(
    sysroot: Seq<char>,
    target: Seq<char>,
    writable: bool,
    dev: u64,
    ino: u64,
    root: IdentitySpec,
    etc: IdentitySpec,
    var: IdentitySpec,
)
    requires
        target.len() > 0,
        target.last() != '/',
    ensures
        ({
            let done = EventSpec::Performed;
            let etc_path = target + seq!['/', 'e', 't', 'c'];
            let var_path = target + seq!['/', 'v', 'a', 'r'];
            let s0 = assembly_start(sysroot, target, writable);
            let s1 = s0.after(done);
            let s2 = s1.after(done);
            let s3 = s2.after(EventSpec::Namespace(dev, ino));
            let s4 = s3.after(EventSpec::Identity(root));
            let s5 = s4.after(done);
            let s6 = s5.after(EventSpec::Identity(etc));
            let s7 = s6.after(done);
            let s8 = s7.after(EventSpec::Identity(var));
            let s9 = s8.after(done);
            &&& s0.action() == ActionSpec::Attach(
                AttachmentSpec { part: Part::Root, path: target, readonly: true },
            )
            &&& s1.action() == ActionSpec::OpenRoot
            &&& s2.action() == ActionSpec::Namespace
            &&& s3.action() == ActionSpec::Identify(target)
            &&& s4.action() == ActionSpec::Attach(
                AttachmentSpec { part: Part::Etc, path: etc_path, readonly: !writable },
            )
            &&& s5.action() == ActionSpec::Identify(etc_path)
            &&& s6.action() == ActionSpec::Attach(
                AttachmentSpec { part: Part::Var, path: var_path, readonly: !writable },
            )
            &&& s7.action() == ActionSpec::Identify(var_path)
            &&& s8.action() == ActionSpec::CreateRecord(
                RecordSpec {
                    sysroot,
                    target,
                    namespace_dev: dev,
                    namespace_ino: ino,
                    writable_state: writable,
                    mounts: seq![root, etc, var],
                    pending_unmount: None,
                },
            )
            &&& s9.action() == ActionSpec::Done
            &&& s0.fits(done) && s1.fits(done) && s2.fits(EventSpec::Namespace(dev, ino))
                && s3.fits(EventSpec::Identity(root)) && s4.fits(done) && s5.fits(
                EventSpec::Identity(etc),
            ) && s6.fits(done) && s7.fits(EventSpec::Identity(var)) && s8.fits(done)
            &&& s0.context() is None
            &&& s1.context() == Some("Opening mounted deployment root"@)
            &&& s2.context() == Some("Recording mount namespace identity"@)
            &&& s3.context() == Some("Recording deployment root mount"@)
            &&& s4.context() == Some("Assembling offline deployment mount"@)
            &&& s5.context() == s4.context() && s6.context() == s4.context() && s7.context()
                == s4.context() && s8.context() == s4.context()
        }),
{
    reveal_strlit("etc");
    reveal_strlit("var");
    law_joined_path(target, ETC@);
    law_joined_path(target, VAR@);
    assert(target.push('/') + ETC@ =~= target + seq!['/', 'e', 't', 'c']);
    assert(target.push('/') + VAR@ =~= target + seq!['/', 'v', 'a', 'r']);
    let none: Seq<IdentitySpec> = seq![];
    assert(none.push(root).push(etc).push(var) =~= seq![root, etc, var]);
}

/// A failure to clean up is told beside the failure itself, and nothing else is added.
pub proof fn law_failure_texts(context: Seq<char>, error: Seq<char>)
    ensures
        failure_text(context, None) == context,
        failure_text(context, Some(error)) == context + " (cleanup also failed: "@ + error + ")"@,
{
}

/// When an assembly fails it unmounts the mounts it made, the last first and the target last; a failure
/// to do so is told, except where the mount of the deployment could not be identified.
pub proof fn law_failures(assembly: &Assembly, r: AssemblyFailure)
    requires
        call_ensures(Assembly::failed, (assembly,), r),
        assembly@.wf(),
    ensures
        r.unmount@.len() == assembly@.owned.len(),
        forall|i: int|
            0 <= i < r.unmount@.len() ==> (#[trigger] r.unmount@[i])@
                == assembly@.owned[assembly@.owned.len() - 1 - i].path,
        assembly@.owned.len() > 0 ==> r.unmount@.last()@ == assembly@.record.target,
        r.tells_cleanup <==> assembly@.stage != AssemblyStage::RootIdentity,
        r.context is None <==> assembly@.stage == AssemblyStage::AttachRoot,
{
    let paths = attached_paths(assembly@.owned);
    assert(texts(r.unmount@).len() == r.unmount@.len());
    assert forall|i: int| 0 <= i < r.unmount@.len() implies (#[trigger] r.unmount@[i])@
        == assembly@.owned[assembly@.owned.len() - 1 - i].path by {
        assert(texts(r.unmount@)[i] == r.unmount@[i]@);
        assert(paths.reverse()[i] == paths[paths.len() - 1 - i]);
    }
    if assembly@.owned.len() > 0 {
        let all = all_attachments(assembly@.record.target, assembly@.record.writable_state);
        assert(assembly@.owned[0] == all[0]);
        let n = r.unmount@.len() as int;
        assert(r.unmount@[n - 1]@ == assembly@.owned[0].path);
    }
}

} // verus!
