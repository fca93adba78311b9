//! The second disk of a fresh-install plan.
//!
//! The plan boots another disk than its machine started with, so neither the machine
//! nor the disk is removed automatically. A record of what belongs to the plan is
//! written before the disk is created, and completed before the disk is attached.
//!
//! [`DiskPreparation`] holds where the preparation is. The caller performs
//! [`DiskPreparation::action`] and reports what it printed.

use vstd::prelude::*;

use crate::paths::{join_path, joined_path, law_joined_path};
use crate::text::{
    concat2, concat3, is_blank, is_printable_ascii, is_printable_word, law_trim,
    law_words_at_any_space, lines, lines_of, no_texts, opt_text, push_text, same, texts, trim,
    trimmed, words, words_of, Class,
};
use crate::tmt::libvirt::LibvirtConnection;

verus! {

pub const FRESH_INSTALL_DISK_SIZE: &'static str = "20G";

pub const FRESH_INSTALL_DISK_TARGET: &'static str = "vdb";

/// Where the records are, below the working directory.
pub const RESOURCES_DIR: &'static str = "target/tmt-fresh-install-disks";

/// What belongs to a fresh-install plan.
#[derive(Debug)]
pub struct FreshInstallDiskRecord {
    pub domain_name: String,
    pub domain_uuid: String,
    pub initial_disk: String,
    pub volume_name: String,
    pub pool_uuid: String,
    pub volume_key: String,
    pub volume_path: String,
    pub connection_uri: String,
    pub socket_path: String,
    pub socket_dev: String,
    pub socket_ino: String,
    pub virsh_path: String,
    pub active_domain_id: String,
}

/// A record, in terms of texts.
pub struct RecordSpec {
    pub domain_name: Seq<char>,
    pub domain_uuid: Seq<char>,
    pub initial_disk: Seq<char>,
    pub volume_name: Seq<char>,
    pub pool_uuid: Seq<char>,
    pub volume_key: Seq<char>,
    pub volume_path: Seq<char>,
    pub connection_uri: Seq<char>,
    pub socket_path: Seq<char>,
    pub socket_dev: Seq<char>,
    pub socket_ino: Seq<char>,
    pub virsh_path: Seq<char>,
    pub active_domain_id: Seq<char>,
}

impl FreshInstallDiskRecord {
    pub open spec fn view(&self) -> RecordSpec {
        RecordSpec {
            domain_name: self.domain_name@,
            domain_uuid: self.domain_uuid@,
            initial_disk: self.initial_disk@,
            volume_name: self.volume_name@,
            pool_uuid: self.pool_uuid@,
            volume_key: self.volume_key@,
            volume_path: self.volume_path@,
            connection_uri: self.connection_uri@,
            socket_path: self.socket_path@,
            socket_dev: self.socket_dev@,
            socket_ino: self.socket_ino@,
            virsh_path: self.virsh_path@,
            active_domain_id: self.active_domain_id@,
        }
    }

    /// The line that tells what is kept.
    pub open spec fn retained_text(self) -> Seq<char> {
        "Fresh-install resources retained: domain="@ + self.domain_name@ + " uuid="@
            + self.domain_uuid@ + " volume="@ + self.volume_name@ + " pool_uuid="@
            + self.pool_uuid@ + " key="@ + self.volume_key@ + " path="@ + self.volume_path@
    }

    /// The line that tells what is kept.
    pub fn retained_line(&self) -> (r: String)
        ensures
            r@ == self.retained_text(),
    {
        let mut line = concat2(
            "Fresh-install resources retained: domain=",
            self.domain_name.as_str(),
        );
        line.append(" uuid=");
        line.append(self.domain_uuid.as_str());
        line.append(" volume=");
        line.append(self.volume_name.as_str());
        line.append(" pool_uuid=");
        line.append(self.pool_uuid.as_str());
        line.append(" key=");
        line.append(self.volume_key.as_str());
        line.append(" path=");
        line.append(self.volume_path.as_str());
        line
    }
}

/// Where a preparation is.
#[derive(Debug, Clone, Copy, PartialEq, Eq, Structural)]
pub enum DiskStage {
    CreateDir,
    DomainUuid,
    DomainId,
    Disks,
    FirstRecord,
    CreateVolume,
    VolumePath,
    VolumeKey,
    PoolUuid,
    LastRecord,
    Attach,
    Done,
}

/// What is to be done next.
#[derive(Debug)]
pub enum DiskAction<'a> {
    /// Create the directory of the records.
    CreateDir(&'a str),
    /// Run a command for what it prints.
    Read(Vec<String>),
    /// Run a command.
    Run(Vec<String>),
    /// Write the record to the named file, for its owner alone.
    WriteRecord(String, &'a FreshInstallDiskRecord),
    /// Nothing: the record is in the named file.
    Done(String),
}

/// What is to be done next, in terms of texts.
pub enum ActionSpec {
    CreateDir(Seq<char>),
    Read(Seq<Seq<char>>),
    Run(Seq<Seq<char>>),
    WriteRecord(Seq<char>, RecordSpec),
    Done(Seq<char>),
}

impl<'a> DiskAction<'a> {
    pub open spec fn view(&self) -> ActionSpec {
        match *self {
            DiskAction::CreateDir(dir) => ActionSpec::CreateDir(dir@),
            DiskAction::Read(argv) => ActionSpec::Read(texts(argv@)),
            DiskAction::Run(argv) => ActionSpec::Run(texts(argv@)),
            DiskAction::WriteRecord(path, record) => ActionSpec::WriteRecord(path@, record@),
            DiskAction::Done(path) => ActionSpec::Done(path@),
        }
    }
}

/// Why a disk cannot be prepared.
#[derive(Debug)]
pub enum DiskError {
    /// The named domain has no UUID.
    EmptyUuid(String),
    /// The domain with the named UUID is not running.
    NotActive(String),
    NoInitialDisk,
}

impl DiskError {
    /// The text of the error.
    pub open spec fn text(self) -> Seq<char> {
        match self {
            DiskError::EmptyUuid(vm) => "virsh returned an empty UUID for domain "@ + vm@,
            DiskError::NotActive(uuid) => "owned domain "@ + uuid@ + " is not active"@,
            DiskError::NoInitialDisk => "Could not identify the owned domain's vda disk"@,
        }
    }

    /// The text of the error.
    pub fn message(&self) -> (r: String)
        ensures
            r@ == self.text(),
    {
        match self {
            DiskError::EmptyUuid(vm) => concat2(
                "virsh returned an empty UUID for domain ",
                vm.as_str(),
            ),
            DiskError::NotActive(uuid) => concat3("owned domain ", uuid.as_str(), " is not active"),
            DiskError::NoInitialDisk => {
                "Could not identify the owned domain's vda disk".to_string()
            },
        }
    }
}

/// The source of the disk `vda` that a line of `virsh domblklist --details` tells of.
pub open spec fn line_source(line: Seq<char>) -> Option<Seq<char>> {
    let fields = words(line, Class::White);
    if fields.len() >= 4 && fields[1] == "disk"@ && fields[2] == "vda"@ {
        Some(fields[3])
    } else {
        None
    }
}

/// The source of the disk `vda`, by the first line that tells of it.
pub open spec fn initial_source(ls: Seq<Seq<char>>) -> Option<Seq<char>>
    decreases ls.len(),
{
    if ls.len() == 0 {
        None
    } else {
        match initial_source(ls.drop_last()) {
            Some(s) => Some(s),
            None => line_source(ls.last()),
        }
    }
}

/// The source of the disk `vda`, by what `virsh domblklist --details` prints.
pub fn initial_disk_source(output: &str) -> (r: Option<String>)
    ensures
        opt_text(r) == initial_source(lines(output@)),
{
    let ls = lines_of(output);
    let ghost all = lines(output@);
    let mut found: Option<String> = None;
    let mut i: usize = 0;
    assert(all.take(0) =~= seq![]);
    while i < ls.len()
        invariant
            i <= ls@.len(),
            texts(ls@) == all,
            opt_text(found) == initial_source(all.take(i as int)),
        decreases ls@.len() - i,
    {
        assert(all.take(i + 1).drop_last() =~= all.take(i as int));
        assert(all.take(i + 1).last() == ls@[i as int]@);
        if found.is_none() {
            let fields = words_of(ls[i].as_str(), Class::White);
            assert(texts(fields@) == words(ls@[i as int]@, Class::White));
            if fields.len() >= 4 {
                assert(texts(fields@)[1] == fields@[1]@);
                assert(texts(fields@)[2] == fields@[2]@);
                assert(texts(fields@)[3] == fields@[3]@);
                if same(fields[1].as_str(), "disk") && same(fields[2].as_str(), "vda") {
                    found = Some(fields[3].clone());
                }
            }
        }
        i = i + 1;
    }
    assert(all.take(i as int) =~= all);
    found
}

// ---------------------------------------------------------------------------
// The course of a preparation
// ---------------------------------------------------------------------------

/// Where a preparation is, in terms of texts.
pub struct DiskState {
    pub stage: DiskStage,
    /// The directory of the records.
    pub dir: Seq<char>,
    pub record: RecordSpec,
}

/// Why a preparation stops.
pub enum DiskFailure {
    EmptyUuid,
    NotActive,
    NoInitialDisk,
}

impl DiskState {
    /// The file of the record.
    pub open spec fn record_path(self) -> Seq<char> {
        joined_path(self.dir, self.record.domain_name + ".json"@)
    }

    /// A call of `virsh` with a time limit.
    pub open spec fn virsh(self, limit: Seq<char>, args: Seq<Seq<char>>) -> Seq<Seq<char>> {
        seq![
            "timeout"@,
            "--kill-after=10s"@,
            limit,
            self.record.virsh_path,
            "--connect"@,
            self.record.connection_uri,
        ] + args
    }

    /// What is to be done next.
    pub open spec fn action(self) -> ActionSpec {
        let r = self.record;
        match self.stage {
            DiskStage::CreateDir => ActionSpec::CreateDir(self.dir),
            DiskStage::DomainUuid => ActionSpec::Read(
                self.virsh("30s"@, seq!["domuuid"@, r.domain_name]),
            ),
            DiskStage::DomainId => ActionSpec::Read(
                self.virsh("30s"@, seq!["domid"@, r.domain_uuid]),
            ),
            DiskStage::Disks => ActionSpec::Read(
                self.virsh("30s"@, seq!["domblklist"@, r.domain_uuid, "--details"@]),
            ),
            DiskStage::FirstRecord | DiskStage::LastRecord => ActionSpec::WriteRecord(
                self.record_path(),
                r,
            ),
            DiskStage::CreateVolume => ActionSpec::Run(
                self.virsh(
                    "60s"@,
                    seq![
                        "vol-create-as"@,
                        "default"@,
                        r.volume_name,
                        FRESH_INSTALL_DISK_SIZE@,
                        "--format"@,
                        "raw"@,
                    ],
                ),
            ),
            DiskStage::VolumePath => ActionSpec::Read(
                self.virsh("30s"@, seq!["vol-path"@, "--pool"@, "default"@, r.volume_name]),
            ),
            DiskStage::VolumeKey => ActionSpec::Read(
                self.virsh("30s"@, seq!["vol-key"@, "--pool"@, "default"@, r.volume_name]),
            ),
            DiskStage::PoolUuid => ActionSpec::Read(
                self.virsh("30s"@, seq!["pool-uuid"@, "default"@]),
            ),
            DiskStage::Attach => ActionSpec::Run(
                self.virsh(
                    "60s"@,
                    seq![
                        "attach-disk"@,
                        r.domain_uuid,
                        r.volume_path,
                        FRESH_INSTALL_DISK_TARGET@,
                        "--live"@,
                        "--config"@,
                        "--driver"@,
                        "qemu"@,
                        "--subdriver"@,
                        "raw"@,
                    ],
                ),
            ),
            DiskStage::Done => ActionSpec::Done(self.record_path()),
        }
    }

    /// On to a stage, with a record.
    pub open spec fn to(self, stage: DiskStage, record: RecordSpec) -> DiskState {
        DiskState { stage, record, ..self }
    }

    /// What follows when the action succeeded and printed `output`.
    pub open spec fn after(self, output: Seq<char>) -> Result<DiskState, DiskFailure> {
        let r = self.record;
        let text = trim(output);
        match self.stage {
            DiskStage::CreateDir => Ok(self.to(DiskStage::DomainUuid, r)),
            DiskStage::DomainUuid => if text.len() == 0 {
                Err(DiskFailure::EmptyUuid)
            } else {
                Ok(self.to(DiskStage::DomainId, RecordSpec { domain_uuid: text, ..r }))
            },
            DiskStage::DomainId => if text.len() == 0 || text == "-"@ {
                Err(DiskFailure::NotActive)
            } else {
                Ok(self.to(DiskStage::Disks, RecordSpec { active_domain_id: text, ..r }))
            },
            DiskStage::Disks => match initial_source(lines(output)) {
                Some(s) => Ok(self.to(DiskStage::FirstRecord, RecordSpec { initial_disk: s, ..r })),
                None => Err(DiskFailure::NoInitialDisk),
            },
            DiskStage::FirstRecord => Ok(self.to(DiskStage::CreateVolume, r)),
            DiskStage::CreateVolume => Ok(self.to(DiskStage::VolumePath, r)),
            DiskStage::VolumePath => Ok(
                self.to(DiskStage::VolumeKey, RecordSpec { volume_path: text, ..r }),
            ),
            DiskStage::VolumeKey => Ok(
                self.to(DiskStage::PoolUuid, RecordSpec { volume_key: text, ..r }),
            ),
            DiskStage::PoolUuid => Ok(
                self.to(DiskStage::LastRecord, RecordSpec { pool_uuid: text, ..r }),
            ),
            DiskStage::LastRecord => Ok(self.to(DiskStage::Attach, r)),
            DiskStage::Attach | DiskStage::Done => Ok(self.to(DiskStage::Done, r)),
        }
    }
}

/// A preparation that is about to begin, for the machine `vm_name`.
pub open spec fn disk_start(
    dir: Seq<char>,
    vm_name: Seq<char>,
    connection: LibvirtConnection,
) -> DiskState {
    DiskState {
        stage: DiskStage::CreateDir,
        dir,
        record: RecordSpec {
            domain_name: vm_name,
            domain_uuid: seq![],
            initial_disk: seq![],
            volume_name: vm_name + "-fresh-install.raw"@,
            pool_uuid: seq![],
            volume_key: seq![],
            volume_path: seq![],
            connection_uri: connection.uri@,
            socket_path: connection.socket_path@,
            socket_dev: connection.socket_dev@,
            socket_ino: connection.socket_ino@,
            virsh_path: connection.virsh_path@,
            active_domain_id: seq![],
        },
    }
}

/// The directory of the records, below the canonical path of the working directory.
pub fn fresh_install_resources_dir(root: &str) -> (r: String)
    ensures
        r@ == joined_path(root@, RESOURCES_DIR@),
{
    join_path(root, RESOURCES_DIR)
}

/// The preparation of a second disk.
#[derive(Debug)]
pub struct DiskPreparation {
    stage: DiskStage,
    dir: String,
    record: FreshInstallDiskRecord,
}

impl DiskPreparation {
    /// Where the preparation is.
    pub closed spec fn view(&self) -> DiskState {
        DiskState { stage: self.stage, dir: self.dir@, record: self.record@ }
    }

    /// A preparation for the machine `vm_name`.
    pub fn new(dir: &str, vm_name: &str, connection: &LibvirtConnection) -> (r: DiskPreparation)
        ensures
            r@ == disk_start(dir@, vm_name@, *connection),
    {
        let r = DiskPreparation {
            stage: DiskStage::CreateDir,
            dir: dir.to_string(),
            record: FreshInstallDiskRecord {
                domain_name: vm_name.to_string(),
                domain_uuid: String::new(),
                initial_disk: String::new(),
                volume_name: concat2(vm_name, "-fresh-install.raw"),
                pool_uuid: String::new(),
                volume_key: String::new(),
                volume_path: String::new(),
                connection_uri: connection.uri.clone(),
                socket_path: connection.socket_path.clone(),
                socket_dev: connection.socket_dev.clone(),
                socket_ino: connection.socket_ino.clone(),
                virsh_path: connection.virsh_path.clone(),
                active_domain_id: String::new(),
            },
        };
        assert(r.record.domain_uuid@ =~= seq![]);
        r
    }

    /// A call of `virsh` with a time limit, up to its command.
    fn virsh(&self, limit: &str, command: &str) -> (r: Vec<String>)
        ensures
            texts(r@) == self@.virsh(limit@, seq![command@]),
    {
        let mut argv = no_texts();
        push_text(&mut argv, "timeout");
        push_text(&mut argv, "--kill-after=10s");
        push_text(&mut argv, limit);
        push_text(&mut argv, self.record.virsh_path.as_str());
        push_text(&mut argv, "--connect");
        push_text(&mut argv, self.record.connection_uri.as_str());
        push_text(&mut argv, command);
        assert(texts(argv@) =~= self@.virsh(limit@, seq![command@]));
        argv
    }

    /// A question about the volume.
    fn volume_query(&self, command: &str) -> (r: Vec<String>)
        ensures
            texts(r@) == self@.virsh(
                "30s"@,
                seq![command@, "--pool"@, "default"@, self@.record.volume_name],
            ),
    {
        let mut argv = self.virsh("30s", command);
        push_text(&mut argv, "--pool");
        push_text(&mut argv, "default");
        push_text(&mut argv, self.record.volume_name.as_str());
        assert(texts(argv@) =~= self@.virsh(
            "30s"@,
            seq![command@, "--pool"@, "default"@, self@.record.volume_name],
        ));
        argv
    }

    /// The file of the record.
    fn record_path(&self) -> (r: String)
        ensures
            r@ == self@.record_path(),
    {
        let file = concat2(self.record.domain_name.as_str(), ".json");
        join_path(self.dir.as_str(), file.as_str())
    }

    /// What is to be done next.
    pub fn action(&self) -> (r: DiskAction<'_>)
        ensures
            r@ == self@.action(),
    {
        let record = &self.record;
        match self.stage {
            DiskStage::CreateDir => DiskAction::CreateDir(self.dir.as_str()),
            DiskStage::DomainUuid => {
                let mut argv = self.virsh("30s", "domuuid");
                push_text(&mut argv, record.domain_name.as_str());
                assert(texts(argv@) =~= self@.virsh(
                    "30s"@,
                    seq!["domuuid"@, record.domain_name@],
                ));
                DiskAction::Read(argv)
            },
            DiskStage::DomainId => {
                let mut argv = self.virsh("30s", "domid");
                push_text(&mut argv, record.domain_uuid.as_str());
                assert(texts(argv@) =~= self@.virsh("30s"@, seq!["domid"@, record.domain_uuid@]));
                DiskAction::Read(argv)
            },
            DiskStage::Disks => {
                let mut argv = self.virsh("30s", "domblklist");
                push_text(&mut argv, record.domain_uuid.as_str());
                push_text(&mut argv, "--details");
                assert(texts(argv@) =~= self@.virsh(
                    "30s"@,
                    seq!["domblklist"@, record.domain_uuid@, "--details"@],
                ));
                DiskAction::Read(argv)
            },
            DiskStage::FirstRecord | DiskStage::LastRecord => DiskAction::WriteRecord(
                self.record_path(),
                record,
            ),
            DiskStage::CreateVolume => {
                let mut argv = self.virsh("60s", "vol-create-as");
                push_text(&mut argv, "default");
                push_text(&mut argv, record.volume_name.as_str());
                push_text(&mut argv, FRESH_INSTALL_DISK_SIZE);
                push_text(&mut argv, "--format");
                push_text(&mut argv, "raw");
                assert(texts(argv@) =~= self@.virsh(
                    "60s"@,
                    seq![
                        "vol-create-as"@,
                        "default"@,
                        record.volume_name@,
                        FRESH_INSTALL_DISK_SIZE@,
                        "--format"@,
                        "raw"@,
                    ],
                ));
                DiskAction::Run(argv)
            },
            DiskStage::VolumePath => DiskAction::Read(self.volume_query("vol-path")),
            DiskStage::VolumeKey => DiskAction::Read(self.volume_query("vol-key")),
            DiskStage::PoolUuid => {
                let mut argv = self.virsh("30s", "pool-uuid");
                push_text(&mut argv, "default");
                assert(texts(argv@) =~= self@.virsh("30s"@, seq!["pool-uuid"@, "default"@]));
                DiskAction::Read(argv)
            },
            DiskStage::Attach => {
                let mut argv = self.virsh("60s", "attach-disk");
                push_text(&mut argv, record.domain_uuid.as_str());
                push_text(&mut argv, record.volume_path.as_str());
                push_text(&mut argv, FRESH_INSTALL_DISK_TARGET);
                push_text(&mut argv, "--live");
                push_text(&mut argv, "--config");
                push_text(&mut argv, "--driver");
                push_text(&mut argv, "qemu");
                push_text(&mut argv, "--subdriver");
                push_text(&mut argv, "raw");
                assert(texts(argv@) =~= self@.virsh(
                    "60s"@,
                    seq![
                        "attach-disk"@,
                        record.domain_uuid@,
                        record.volume_path@,
                        FRESH_INSTALL_DISK_TARGET@,
                        "--live"@,
                        "--config"@,
                        "--driver"@,
                        "qemu"@,
                        "--subdriver"@,
                        "raw"@,
                    ],
                ));
                DiskAction::Run(argv)
            },
            DiskStage::Done => DiskAction::Done(self.record_path()),
        }
    }

    /// Reports that the action succeeded, and what it printed.
    pub fn report(&mut self, output: &str) -> (r: Result<(), DiskError>)
        ensures
            match old(self)@.after(output@) {
                Ok(next) => r is Ok && final(self)@ == next,
                Err(why) => final(self)@ == old(self)@ && (r matches Err(e) && match why {
                    DiskFailure::EmptyUuid => e matches DiskError::EmptyUuid(vm) && vm@ == old(
                        self,
                    )@.record.domain_name,
                    DiskFailure::NotActive => e matches DiskError::NotActive(uuid) && uuid@ == old(
                        self,
                    )@.record.domain_uuid,
                    DiskFailure::NoInitialDisk => e is NoInitialDisk,
                }),
            },
    {
        let text = trimmed(output);
        match self.stage {
            DiskStage::CreateDir => {
                self.stage = DiskStage::DomainUuid;
            },
            DiskStage::DomainUuid => {
                if text.as_str().is_empty() {
                    return Err(DiskError::EmptyUuid(self.record.domain_name.clone()));
                }
                self.record.domain_uuid = text;
                self.stage = DiskStage::DomainId;
            },
            DiskStage::DomainId => {
                if text.as_str().is_empty() || same(text.as_str(), "-") {
                    return Err(DiskError::NotActive(self.record.domain_uuid.clone()));
                }
                self.record.active_domain_id = text;
                self.stage = DiskStage::Disks;
            },
            DiskStage::Disks => {
                match initial_disk_source(output) {
                    Some(source) => {
                        self.record.initial_disk = source;
                        self.stage = DiskStage::FirstRecord;
                    },
                    None => {
                        return Err(DiskError::NoInitialDisk);
                    },
                }
            },
            DiskStage::FirstRecord => {
                self.stage = DiskStage::CreateVolume;
            },
            DiskStage::CreateVolume => {
                self.stage = DiskStage::VolumePath;
            },
            DiskStage::VolumePath => {
                self.record.volume_path = text;
                self.stage = DiskStage::VolumeKey;
            },
            DiskStage::VolumeKey => {
                self.record.volume_key = text;
                self.stage = DiskStage::PoolUuid;
            },
            DiskStage::PoolUuid => {
                self.record.pool_uuid = text;
                self.stage = DiskStage::LastRecord;
            },
            DiskStage::LastRecord => {
                self.stage = DiskStage::Attach;
            },
            DiskStage::Attach | DiskStage::Done => {
                self.stage = DiskStage::Done;
            },
        }
        Ok(())
    }

    /// The record as it is so far.
    pub fn record(&self) -> (r: &FreshInstallDiskRecord)
        ensures
            r@ == self@.record,
    {
        &self.record
    }
}

// ---------------------------------------------------------------------------
// Laws
// ---------------------------------------------------------------------------

/// Where a preparation is after a series of actions that printed `outputs`; `None` where
/// one of them had it stop.
pub open spec fn disk_after(s: DiskState, outputs: Seq<Seq<char>>) -> Option<DiskState>
    decreases outputs.len(),
{
    if outputs.len() == 0 {
        Some(s)
    } else {
        match disk_after(s, outputs.drop_last()) {
            Some(before) => match before.after(outputs.last()) {
                Ok(next) => Some(next),
                Err(_) => None,
            },
            None => None,
        }
    }
}

/// The stages that come once the record was written for the first time.
pub open spec fn is_recorded(stage: DiskStage) -> bool {
    match stage {
        DiskStage::CreateVolume
        | DiskStage::VolumePath
        | DiskStage::VolumeKey
        | DiskStage::PoolUuid
        | DiskStage::LastRecord
        | DiskStage::Attach
        | DiskStage::Done => true,
        _ => false,
    }
}

/// The volume is created only after a record was written that names the machine, its UUID
/// and the volume.
pub proof fn law_record_before_volume(
    dir: Seq<char>,
    vm_name: Seq<char>,
    connection: LibvirtConnection,
    outputs: Seq<Seq<char>>,
)
    requires
        disk_after(disk_start(dir, vm_name, connection), outputs) is Some,
        is_recorded(disk_after(disk_start(dir, vm_name, connection), outputs)->0.stage),
    ensures
        exists|k: int|
            #![trigger outputs.take(k)]
            0 <= k < outputs.len() && {
                let s = disk_start(dir, vm_name, connection);
                let then = disk_after(s, outputs.take(k));
                let now = disk_after(s, outputs)->0;
                &&& then is Some
                &&& then->0.stage == DiskStage::FirstRecord
                &&& then->0.record.domain_uuid == now.record.domain_uuid
                &&& then->0.record.domain_uuid.len() > 0
                &&& then->0.record.domain_name == vm_name
                &&& then->0.record.volume_name == now.record.volume_name
                &&& then->0.record_path() == now.record_path()
            },
    decreases outputs.len(),
{
    let s = disk_start(dir, vm_name, connection);
    lemma_disk_facts(dir, vm_name, connection, outputs);
    if outputs.len() > 0 {
        let n = outputs.len() - 1;
        let before = disk_after(s, outputs.drop_last())->0;
        lemma_disk_facts(dir, vm_name, connection, outputs.drop_last());
        assert(outputs.take(n) =~= outputs.drop_last());
        if before.stage != DiskStage::FirstRecord {
            law_record_before_volume(dir, vm_name, connection, outputs.drop_last());
            let k = choose|k: int|
                #![trigger outputs.drop_last().take(k)]
                0 <= k < outputs.drop_last().len() && {
                    let then = disk_after(s, outputs.drop_last().take(k));
                    let now = disk_after(s, outputs.drop_last())->0;
                    &&& then is Some
                    &&& then->0.stage == DiskStage::FirstRecord
                    &&& then->0.record.domain_uuid == now.record.domain_uuid
                    &&& then->0.record.domain_uuid.len() > 0
                    &&& then->0.record.domain_name == vm_name
                    &&& then->0.record.volume_name == now.record.volume_name
                    &&& then->0.record_path() == now.record_path()
                };
            assert(outputs.take(k) =~= outputs.drop_last().take(k));
        }
    }
}

/// What a preparation never changes, and what it knows from some stage on.
proof fn lemma_disk_facts(
    dir: Seq<char>,
    vm_name: Seq<char>,
    connection: LibvirtConnection,
    outputs: Seq<Seq<char>>,
)
    requires
        disk_after(disk_start(dir, vm_name, connection), outputs) is Some,
    ensures
        ({
            let start = disk_start(dir, vm_name, connection);
            let now = disk_after(start, outputs)->0;
            &&& now.dir == dir
            &&& now.record.domain_name == vm_name
            &&& now.record.volume_name == start.record.volume_name
            &&& now.stage != DiskStage::CreateDir && now.stage != DiskStage::DomainUuid
                ==> now.record.domain_uuid.len() > 0
        }),
    decreases outputs.len(),
{
    if outputs.len() > 0 {
        lemma_disk_facts(dir, vm_name, connection, outputs.drop_last());
    }
}

/// The disk is attached only after the record was written with all there is to know of it:
/// what was written last is what is there when the disk is attached.
pub proof fn law_complete_record_before_attach(
    dir: Seq<char>,
    vm_name: Seq<char>,
    connection: LibvirtConnection,
    outputs: Seq<Seq<char>>,
)
    requires
        disk_after(disk_start(dir, vm_name, connection), outputs) is Some,
        disk_after(disk_start(dir, vm_name, connection), outputs)->0.stage == DiskStage::Attach,
    ensures
        outputs.len() > 0,
        ({
            let s = disk_start(dir, vm_name, connection);
            let then = disk_after(s, outputs.drop_last());
            let now = disk_after(s, outputs)->0;
            &&& then is Some
            &&& then->0.action() == ActionSpec::WriteRecord(now.record_path(), now.record)
        }),
{
}

// ---------------------------------------------------------------------------
// The reboot command
// ---------------------------------------------------------------------------

/// An error of `shlex`.
#[verifier::external_type_specification]
#[verifier::external_body]
pub struct ExQuoteError(shlex::QuoteError);

/// A word as `shlex::try_quote` quotes it for a shell.
pub uninterp spec fn shell_quoted(word: Seq<char>) -> Seq<char>;

/// Calls `shlex::try_quote`: a word without a NUL character is quoted, in a way that
/// depends on the word alone; one with a NUL character is an error.
#[verifier::external_body]
fn quote_word(word: &str) -> (r: Result<String, shlex::QuoteError>)
    ensures
        match r {
            Ok(q) => !word@.contains('\0') && q@ == shell_quoted(word@),
            Err(_) => word@.contains('\0'),
        },
{
    shlex::try_quote(word).map(|q| q.into_owned())
}

/// Why there is no reboot command.
#[derive(Debug, Clone, Copy, PartialEq, Eq, Structural)]
pub enum RebootError {
    /// The path of the helper cannot be quoted.
    Helper,
    /// The path of the record cannot be quoted.
    Record,
}

/// The command that reboots a machine into its second disk, from words quoted for a
/// shell.
pub open spec fn reboot_command(helper: Seq<char>, record: Seq<char>) -> Seq<char> {
    "/bin/bash "@ + helper + " "@ + record
}

/// The command that reboots a machine into its second disk, from words quoted for a
/// shell.
pub fn reboot_command_of(helper: &str, record: &str) -> (r: String)
    ensures
        r@ == reboot_command(helper@, record@),
{
    let head = concat3("/bin/bash ", helper, " ");
    concat2(head.as_str(), record)
}

/// The command that reboots a machine into its second disk: the helper runs with the path
/// of the record, both as single words.
pub fn fresh_install_soft_reboot_command(helper: &str, record: &str) -> (r: Result<
    String,
    RebootError,
>)
    ensures
        if helper@.contains('\0') {
            r == Err::<String, _>(RebootError::Helper)
        } else if record@.contains('\0') {
            r == Err::<String, _>(RebootError::Record)
        } else {
            r matches Ok(command) && command@ == reboot_command(
                shell_quoted(helper@),
                shell_quoted(record@),
            )
        },
{
    let h = match quote_word(helper) {
        Ok(q) => q,
        Err(_) => return Err(RebootError::Helper),
    };
    let r = match quote_word(record) {
        Ok(q) => q,
        Err(_) => return Err(RebootError::Record),
    };
    Ok(reboot_command_of(h.as_str(), r.as_str()))
}

// ---------------------------------------------------------------------------
// Laws of the course
// ---------------------------------------------------------------------------

/// A call of `virsh` over the connection, with its time limit.
pub open spec fn limited_virsh(limit: Seq<char>, connection: LibvirtConnection, args: Seq<Seq<char>>) -> Seq<
    Seq<char>,
> {
    seq![
        "timeout"@,
        "--kill-after=10s"@,
        limit,
        connection.virsh_path@,
        "--connect"@,
        connection.uri@,
    ] + args
}

/// Whether a text is one that is printed with white space around it, or none.
pub open spec fn prints(output: Seq<char>, text: Seq<char>) -> bool {
    exists|before: Seq<char>, after: Seq<char>|
        is_blank(before) && is_blank(after) && output == #[trigger] (before + text + after)
}

/// Whether a text can be told from the white space around it.
pub open spec fn is_plain_answer(text: Seq<char>) -> bool {
    text.len() > 0 && is_printable_ascii(text[0]) && is_printable_ascii(text.last())
}

/// What is printed is read without the white space around it.
proof fn lemma_prints(output: Seq<char>, text: Seq<char>)
    requires
        prints(output, text),
        text.len() > 0 ==> is_plain_answer(text),
    ensures
        trim(output) == text,
{
    let (before, after) = choose|before: Seq<char>, after: Seq<char>|
        is_blank(before) && is_blank(after) && output == #[trigger] (before + text + after);
    law_trim(before, text, after);
}

/// Where a preparation is once the machine is known: its UUID and its ID are what `virsh` printed.
proof fn lemma_machine_known(
    dir: Seq<char>,
    vm_name: Seq<char>,
    connection: LibvirtConnection,
    uuid: Seq<char>,
    id: Seq<char>,
    uuid_output: Seq<char>,
    id_output: Seq<char>,
)
    requires
        is_plain_answer(uuid),
        is_plain_answer(id),
        id != "-"@,
        prints(uuid_output, uuid),
        prints(id_output, id),
    ensures
        ({
            let s0 = disk_start(dir, vm_name, connection);
            let s1 = s0.after(seq![])->Ok_0;
            let s2 = s1.after(uuid_output)->Ok_0;
            let s3 = s2.after(id_output);
            &&& s0.action() == ActionSpec::CreateDir(dir)
            &&& s1.action() == ActionSpec::Read(
                limited_virsh("30s"@, connection, seq!["domuuid"@, vm_name]),
            )
            &&& s2.action() == ActionSpec::Read(
                limited_virsh("30s"@, connection, seq!["domid"@, uuid]),
            )
            &&& s3 == Ok::<DiskState, DiskFailure>(
                DiskState {
                    stage: DiskStage::Disks,
                    dir,
                    record: RecordSpec {
                        domain_uuid: uuid,
                        active_domain_id: id,
                        ..disk_start(dir, vm_name, connection).record
                    },
                },
            )
        }),
{
    lemma_prints(uuid_output, uuid);
    lemma_prints(id_output, id);
}

/// A preparation asks for the UUID of the machine, whether it runs, and its first disk; it writes its
/// record; it creates the volume, asks for its path, its key and its pool, and writes the record
/// again; and it attaches the volume as `vdb`. The record holds what was printed, each in its place,
/// and the connection that was given.
pub proof fn law_disk_course(
    dir: Seq<char>,
    vm_name: Seq<char>,
    connection: LibvirtConnection,
    answers: Seq<Seq<char>>,
    outputs: Seq<Seq<char>>,
)
    requires
        answers.len() == 6,
        outputs.len() == 6,
        forall|i: int| 0 <= i < 6 ==> is_plain_answer(#[trigger] answers[i]),
        answers[1] != "-"@,
        forall|i: int| 0 <= i < 6 && i != 2 ==> prints(#[trigger] outputs[i], answers[i]),
        initial_source(lines(outputs[2])) == Some(answers[2]),
        dir.len() > 0,
        dir.last() != '/',
        vm_name.len() > 0,
        vm_name[0] != '/',
    ensures
        ({
            let none: Seq<char> = seq![];
            let volume = vm_name + "-fresh-install.raw"@;
            let file = dir + seq!['/'] + vm_name + ".json"@;
            let first = RecordSpec {
                domain_name: vm_name,
                domain_uuid: answers[0],
                initial_disk: answers[2],
                volume_name: volume,
                pool_uuid: none,
                volume_key: none,
                volume_path: none,
                connection_uri: connection.uri@,
                socket_path: connection.socket_path@,
                socket_dev: connection.socket_dev@,
                socket_ino: connection.socket_ino@,
                virsh_path: connection.virsh_path@,
                active_domain_id: answers[1],
            };
            let last = RecordSpec {
                volume_path: answers[3],
                volume_key: answers[4],
                pool_uuid: answers[5],
                ..first
            };
            let s3 = disk_start(dir, vm_name, connection).after(none)->Ok_0.after(
                outputs[0],
            )->Ok_0.after(outputs[1])->Ok_0;
            let s4 = s3.after(outputs[2])->Ok_0;
            let s5 = s4.after(none)->Ok_0;
            let s6 = s5.after(none)->Ok_0;
            let s7 = s6.after(outputs[3])->Ok_0;
            let s8 = s7.after(outputs[4])->Ok_0;
            let s9 = s8.after(outputs[5])->Ok_0;
            let s10 = s9.after(none)->Ok_0;
            &&& s3.action() == ActionSpec::Read(
                limited_virsh("30s"@, connection, seq!["domblklist"@, answers[0], "--details"@]),
            )
            &&& s4.action() == ActionSpec::WriteRecord(file, first)
            &&& s5.action() == ActionSpec::Run(
                limited_virsh(
                    "60s"@,
                    connection,
                    seq!["vol-create-as"@, "default"@, volume, "20G"@, "--format"@, "raw"@],
                ),
            )
            &&& s6.action() == ActionSpec::Read(
                limited_virsh(
                    "30s"@,
                    connection,
                    seq!["vol-path"@, "--pool"@, "default"@, volume],
                ),
            )
            &&& s7.action() == ActionSpec::Read(
                limited_virsh("30s"@, connection, seq!["vol-key"@, "--pool"@, "default"@, volume]),
            )
            &&& s8.action() == ActionSpec::Read(
                limited_virsh("30s"@, connection, seq!["pool-uuid"@, "default"@]),
            )
            &&& s9.action() == ActionSpec::WriteRecord(file, last)
            &&& s10.action() == ActionSpec::Run(
                limited_virsh(
                    "60s"@,
                    connection,
                    seq![
                        "attach-disk"@,
                        answers[0],
                        answers[3],
                        "vdb"@,
                        "--live"@,
                        "--config"@,
                        "--driver"@,
                        "qemu"@,
                        "--subdriver"@,
                        "raw"@,
                    ],
                ),
            )
            &&& s10.after(none)->Ok_0.action() == ActionSpec::Done(file)
        }),
{
    reveal_strlit("-");
    assert(is_plain_answer(answers[0]) && is_plain_answer(answers[1]));
    assert(prints(outputs[0], answers[0]) && prints(outputs[1], answers[1]));
    lemma_machine_known(
        dir,
        vm_name,
        connection,
        answers[0],
        answers[1],
        outputs[0],
        outputs[1],
    );
    assert(is_plain_answer(answers[3]) && is_plain_answer(answers[4]) && is_plain_answer(
        answers[5],
    ));
    lemma_prints(outputs[3], answers[3]);
    lemma_prints(outputs[4], answers[4]);
    lemma_prints(outputs[5], answers[5]);
    let name = vm_name + ".json"@;
    law_joined_path(dir, name);
    assert(dir.push('/') + name =~= dir + seq!['/'] + vm_name + ".json"@);
}

/// A machine without a UUID, one that does not run, and one without a first disk stop a preparation.
pub proof fn law_disk_stops(s: DiskState, output: Seq<char>)
    ensures
        s.stage == DiskStage::DomainUuid && is_blank(output) ==> s.after(output) is Err,
        s.stage == DiskStage::DomainId && (is_blank(output) || prints(output, "-"@)) ==> s.after(
            output,
        ) is Err,
        s.stage == DiskStage::Disks && initial_source(lines(output)) is None ==> s.after(
            output,
        ) is Err,
{
    reveal_strlit("-");
    if is_blank(output) {
        let none: Seq<char> = seq![];
        law_trim(output, none, none);
        assert(output + none + none =~= output);
    }
    if prints(output, "-"@) {
        lemma_prints(output, "-"@);
    }
}

/// The first disk is the source of `vda`, by the first line that tells of a disk of that name,
/// whatever other devices are listed.
pub proof fn law_first_disk(
    kind: Seq<char>,
    device: Seq<char>,
    target: Seq<char>,
    source: Seq<char>,
    before: Seq<Seq<char>>,
    after: Seq<Seq<char>>,
)
    requires
        is_printable_word(kind),
        is_printable_word(device),
        is_printable_word(target),
        is_printable_word(source),
        initial_source(before) is None,
    ensures
        ({
            let line = kind + seq![' '] + device + seq![' '] + target + seq![' '] + source;
            &&& device == "disk"@ && target == "vda"@ ==> initial_source(before.push(line) + after)
                == Some(source)
            &&& device != "disk"@ || target != "vda"@ ==> initial_source(before.push(line)) is None
        }),
    decreases after.len(),
{
    let w = Class::White;
    let line = kind + seq![' '] + device + seq![' '] + target + seq![' '] + source;
    let l1 = target.push(' ') + source;
    let l2 = device.push(' ') + l1;
    let l3 = kind.push(' ') + l2;
    assert(line =~= l3);
    law_words_at_any_space(kind, ' ', l2);
    law_words_at_any_space(device, ' ', l1);
    law_words_at_any_space(target, ' ', source);
    law_words_at_any_space(source, ' ', seq![]);
    assert(words(line, w) =~= seq![kind, device, target, source]);
    let ls = before.push(line) + after;
    assert(before.push(line).drop_last() =~= before);
    assert(before.push(line).last() == line);
    if after.len() == 0 {
        assert(ls =~= before.push(line));
    } else {
        law_first_disk(kind, device, target, source, before, after.drop_last());
        assert(ls.drop_last() =~= before.push(line) + after.drop_last());
    }
}

/// The records are kept below the working directory; the reboot runs the helper with the record,
/// both as single words; and what is kept is told with every name that it takes to remove it.
pub proof fn law_disk_texts(record: FreshInstallDiskRecord, helper: Seq<char>, path: Seq<char>)
    ensures
        RESOURCES_DIR@ == "target/tmt-fresh-install-disks"@,
        reboot_command(helper, path) == "/bin/bash "@ + helper + " "@ + path,
        record.retained_text() == "Fresh-install resources retained: domain="@
            + record.domain_name@ + " uuid="@ + record.domain_uuid@ + " volume="@
            + record.volume_name@ + " pool_uuid="@ + record.pool_uuid@ + " key="@
            + record.volume_key@ + " path="@ + record.volume_path@,
{
}

} // verus!
