use bootc_verified::mount::assembly::{
    failure_context, Assembly, AssemblyAction, AssemblyEvent, AssemblyStage, Part,
};
use bootc_verified::mount::record::{
    check_record_target, lock_path, pending_unmount_recovered, record_path, validate_record_shape,
    MountIdentity, MountRecord, ShapeError,
};
use bootc_verified::mount::target::{
    composefs_deployments, composefs_paths, names_deployment, nofollow_steps, only_deployment,
    ostree_paths, ostree_repo_path, ostree_state_path, select_backend, validate_mount_target,
    validate_relative_mount_path, validate_unmount_target, Backend, DeploymentEntry,
    DeploymentState, RelativeError, SelectionError, TargetError, TargetKind,
};
use bootc_verified::mount::teardown::{Teardown, TeardownAction};
use bootc_verified::mount::topology::{
    collect_mount_targets, current_mount_identity, mount_identity, validate_record, Filesystem,
    Found, IdentityError, Observed, RecordError,
};
use bootc_verified::paths::PathSet;

#[test]
fn rejects_overlap_and_nonempty_targets() {
    let (sysroot, target) = ("/tmp/x/sysroot", "/tmp/x/target");
    validate_mount_target(
        sysroot,
        target,
        TargetKind::Empty,
        Some(sysroot),
        Some(target),
    )
    .unwrap();
    assert!(validate_mount_target(
        sysroot,
        target,
        TargetKind::NotEmpty,
        Some(sysroot),
        Some(target)
    )
    .is_err());
    assert!(validate_mount_target(
        sysroot,
        sysroot,
        TargetKind::Empty,
        Some(sysroot),
        Some(sysroot)
    )
    .is_err());
}

#[test]
fn validates_descriptor_relative_ostree_paths() {
    let cases = [
        ("ostree/deploy/default/deployment", true),
        ("", false),
        ("/ostree/deploy/default/deployment", false),
        ("ostree/../deploy/default", false),
        ("../deploy/default", false),
    ];
    for (path, valid) in cases {
        assert_eq!(
            validate_relative_mount_path(path).is_ok(),
            valid,
            "path {path:?}"
        );
    }
    assert_eq!(ostree_state_path("example"), "ostree/deploy/example/var");
}

#[test]
fn collects_nested_mount_targets_for_strict_topology_checks() {
    let filesystems = vec![
        Filesystem {
            source: "root".into(),
            target: "/target".into(),
            maj_min: "0:0".into(),
            fstype: "erofs".into(),
            options: "ro".into(),
            uuid: None,
            id: Some(1),
            children: Some(vec![Filesystem {
                source: "etc".into(),
                target: "/target/etc".into(),
                maj_min: "0:0".into(),
                fstype: "xfs".into(),
                options: "ro".into(),
                uuid: None,
                id: Some(2),
                children: Some(vec![Filesystem {
                    source: "unexpected".into(),
                    target: "/target/etc/nested".into(),
                    maj_min: "0:0".into(),
                    fstype: "tmpfs".into(),
                    options: "rw".into(),
                    uuid: None,
                    id: Some(3),
                    children: None,
                }]),
            }]),
        },
        Filesystem {
            source: "var".into(),
            target: "/target/var".into(),
            maj_min: "0:0".into(),
            fstype: "xfs".into(),
            options: "ro".into(),
            uuid: None,
            id: Some(4),
            children: None,
        },
    ];
    let mut targets = PathSet::new();
    collect_mount_targets(&filesystems, &mut targets);
    assert!(targets.contains("/target"));
    assert!(targets.contains("/target/etc"));
    assert!(targets.contains("/target/var"));
    assert!(targets.contains("/target/etc/nested"));
    let mut expected = PathSet::new();
    for path in ["/target", "/target/etc", "/target/var"] {
        expected.insert(path);
    }
    assert!(!targets.same_as(&expected));
}

fn record(writable: bool) -> MountRecord {
    let target = "/target";
    MountRecord {
        sysroot: "/sysroot".into(),
        target: target.into(),
        namespace_dev: 1,
        namespace_ino: 2,
        writable_state: writable,
        mounts: ["", "etc", "var"]
            .into_iter()
            .map(|suffix| MountIdentity {
                path: if suffix.is_empty() {
                    target.into()
                } else {
                    format!("{target}/{suffix}")
                },
                id: 1,
                source: "source".into(),
                readonly: !writable || suffix.is_empty(),
            })
            .collect(),
        pending_unmount: None,
    }
}

#[test]
fn validates_expected_mount_topology_and_attributes() {
    assert!(validate_record_shape(&record(false)).is_ok());
    assert!(validate_record_shape(&record(true)).is_ok());

    let mut unexpected = record(false);
    unexpected.mounts[1].path.push_str("/nested");
    assert!(validate_record_shape(&unexpected).is_err());

    let mut writable_root = record(true);
    writable_root.mounts[0].readonly = false;
    assert!(validate_record_shape(&writable_root).is_err());

    let mut foreign_pending = record(false);
    foreign_pending.pending_unmount = Some(MountIdentity {
        path: "/unrelated".into(),
        id: 9,
        source: "other".into(),
        readonly: true,
    });
    assert!(validate_record_shape(&foreign_pending).is_err());

    let mut pending = record(false);
    pending.pending_unmount = Some(pending.mounts[2].clone());
    assert!(validate_record_shape(&pending).is_ok());

    assert!(pending_unmount_recovered(&pending, None).unwrap());
    assert!(!pending_unmount_recovered(&pending, Some(&pending.mounts[2])).unwrap());
    let mut changed = pending.mounts[2].clone();
    changed.id += 1;
    assert!(pending_unmount_recovered(&pending, Some(&changed)).is_err());
}

#[test]
fn each_shape_error_has_its_input() {
    let mut short = record(false);
    short.mounts.pop();
    assert_eq!(validate_record_shape(&short), Err(ShapeError::MountCount));
    let mut moved = record(false);
    moved.mounts.swap(1, 2);
    assert_eq!(validate_record_shape(&moved), Err(ShapeError::Topology));
    let mut root = record(true);
    root.mounts[0].readonly = false;
    assert_eq!(validate_record_shape(&root), Err(ShapeError::RootWritable));
    let mut state = record(true);
    state.mounts[2].readonly = true;
    assert_eq!(validate_record_shape(&state), Err(ShapeError::StateAttributes));
    let mut foreign = record(false);
    let mut other = foreign.mounts[0].clone();
    other.id = 7;
    foreign.pending_unmount = Some(other);
    assert_eq!(validate_record_shape(&foreign), Err(ShapeError::ForeignPending));
    assert_eq!(
        ShapeError::ForeignPending.message(),
        "pending unmount is not one of the recorded mounts"
    );
    // Paths are compared by their components.
    let mut slashes = record(false);
    slashes.mounts[1].path = "/target//etc/".into();
    assert!(validate_record_shape(&slashes).is_ok());
}

#[test]
fn record_files_are_named_by_digest() {
    assert_eq!(
        record_path(""),
        "/run/bootc/install-mounts/cbf29ce484222325.json"
    );
    assert_eq!(
        record_path("a"),
        "/run/bootc/install-mounts/af63dc4c8601ec8c.json"
    );
    assert_eq!(
        lock_path("foobar"),
        "/run/bootc/install-mounts/85944171f73967e8.lock"
    );
    assert!(check_record_target(&record(false), "/target/"));
    assert!(!check_record_target(&record(false), "/other"));
}

#[test]
fn each_target_error_has_its_input() {
    let ok = |sysroot, target, kind, s, t| validate_mount_target(sysroot, target, kind, s, t);
    assert_eq!(
        ok("s", "/t", TargetKind::Empty, None, None),
        Err(TargetError::SysrootNotAbsolute)
    );
    assert_eq!(
        ok("/s", "t", TargetKind::Empty, None, None),
        Err(TargetError::TargetNotAbsolute)
    );
    for (kind, error) in [
        (TargetKind::Unreadable, TargetError::Unreadable),
        (TargetKind::NotADirectory, TargetError::NotADirectory),
        (TargetKind::Unlistable, TargetError::Unlistable),
        (TargetKind::NotEmpty, TargetError::NotEmpty),
    ] {
        assert_eq!(ok("/s", "/t", kind, None, None), Err(error));
    }
    assert_eq!(
        ok("/s", "/t", TargetKind::Empty, None, Some("/t")),
        Err(TargetError::SysrootUnresolved)
    );
    assert_eq!(
        ok("/s", "/t", TargetKind::Empty, Some("/s"), None),
        Err(TargetError::TargetUnresolved)
    );
    assert_eq!(
        ok("/s", "/s/t", TargetKind::Empty, Some("/s"), Some("/s/t")),
        Err(TargetError::Overlap)
    );
    assert_eq!(
        ok("/a/b", "/a", TargetKind::Empty, Some("/a/b"), Some("/a")),
        Err(TargetError::Overlap)
    );
    // A shared beginning of a name is no overlap.
    assert_eq!(
        ok("/a/b", "/a/bc", TargetKind::Empty, Some("/a/b"), Some("/a/bc")),
        Ok(())
    );
    assert_eq!(
        TargetError::NotEmpty.message("/s", "/t"),
        "mount target must be an existing empty directory: /t"
    );
    assert_eq!(validate_unmount_target("/t"), Ok(()));
    assert_eq!(
        validate_unmount_target("t"),
        Err(TargetError::TargetNotAbsolute)
    );
}

#[test]
fn relative_paths_and_their_steps() {
    assert_eq!(validate_relative_mount_path("/a"), Err(RelativeError::Absolute));
    assert_eq!(validate_relative_mount_path(""), Err(RelativeError::Empty));
    assert_eq!(validate_relative_mount_path("."), Err(RelativeError::NotNormal));
    assert_eq!(validate_relative_mount_path("./a"), Err(RelativeError::NotNormal));
    assert_eq!(validate_relative_mount_path("a/./b//"), Ok(()));
    let (names, whole) = nofollow_steps("a/b/../c");
    assert_eq!(names, ["a", "b"]);
    assert!(!whole);
    let (names, whole) = nofollow_steps("a//b/.");
    assert_eq!(names, ["a", "b"]);
    assert!(whole);
}

#[test]
fn backends_and_deployments() {
    assert_eq!(select_backend(true, false), Ok(Backend::Ostree));
    assert_eq!(select_backend(false, true), Ok(Backend::Composefs));
    assert_eq!(
        select_backend(true, true),
        Err(SelectionError::AmbiguousBackend)
    );
    assert_eq!(select_backend(false, false), Err(SelectionError::NotASysroot));

    let id = "0aF".repeat(42) + "00";
    assert_eq!(id.len(), 128);
    assert!(names_deployment(&id));
    assert!(!names_deployment(&id[1..]));
    assert!(!names_deployment(&id.replace('F', "g")));

    let entry = |name: &str, state| DeploymentEntry {
        name: name.into(),
        state,
    };
    let found = composefs_deployments(&vec![
        entry("lost+found", DeploymentState::NotADirectory),
        entry(&id, DeploymentState::Sound),
    ])
    .unwrap();
    assert_eq!(found, [id.as_str()]);
    assert_eq!(only_deployment(&found, Backend::Composefs), Ok(id.as_str()));
    assert_eq!(
        composefs_deployments(&vec![entry(&id, DeploymentState::NoEtc)]).unwrap_err(),
        DeploymentState::NoEtc
    );
    let none: Vec<String> = Vec::new();
    assert_eq!(
        only_deployment(&none, Backend::Ostree),
        Err(SelectionError::NotOneDeployment(Backend::Ostree))
    );
    assert_eq!(
        SelectionError::NotOneDeployment(Backend::Composefs).message(),
        "target must contain exactly one composefs deployment; refusing ambiguous selection"
    );
    let paths = ostree_paths("ostree/deploy/os/deploy/abc.0", "os").unwrap();
    assert_eq!(paths.root, "ostree/deploy/os/deploy/abc.0");
    assert_eq!(paths.etc, "ostree/deploy/os/deploy/abc.0/etc");
    assert_eq!(paths.var, "ostree/deploy/os/var");
    assert_eq!(
        ostree_paths("/abs", "os").unwrap_err(),
        SelectionError::DeploymentPath(RelativeError::Absolute)
    );
    assert_eq!(
        ostree_paths("a", "..").unwrap_err(),
        SelectionError::StatePath(RelativeError::NotNormal)
    );
    let paths = composefs_paths("abc");
    assert_eq!(paths.etc, "state/deploy/abc/etc");
    assert_eq!(paths.var, "state/os/default/var");
    assert_eq!(ostree_repo_path("/sysroot"), "/sysroot/ostree/repo");
}

fn filesystem(target: &str, id: Option<u64>, options: &str) -> Filesystem {
    Filesystem {
        source: "source".into(),
        target: target.into(),
        maj_min: "0:0".into(),
        fstype: "xfs".into(),
        options: options.into(),
        uuid: None,
        id,
        children: None,
    }
}

#[test]
fn mounts_are_identified_by_findmnt() {
    let found = vec![
        filesystem("/t", Some(1), "rw,relatime"),
        filesystem("/t", Some(2), "rw,errors=ro,ro"),
    ];
    let first = mount_identity("/t", &found).unwrap();
    assert_eq!((first.id, first.readonly), (1, false));
    let last = current_mount_identity("/t", &found).unwrap().unwrap();
    assert_eq!((last.id, last.readonly), (2, true));
    assert_eq!(last.source, "source");
    let none = Vec::new();
    assert!(current_mount_identity("/t", &none).unwrap().is_none());
    assert_eq!(
        mount_identity("/t", &none).unwrap_err().message(),
        "/t is not a mountpoint"
    );
    let unknown = vec![filesystem("/t", None, "ro")];
    assert!(matches!(
        mount_identity("/t", &unknown),
        Err(IdentityError::NoMountId(_))
    ));
    assert!(matches!(
        current_mount_identity("/t", &unknown),
        Err(IdentityError::NoCurrentId)
    ));
}

fn observed(paths: &[&str], record: &MountRecord) -> Observed {
    Observed {
        namespace: (1, 2),
        subtree: Some(
            paths
                .iter()
                .map(|path| filesystem(path, Some(1), "ro"))
                .collect(),
        ),
        target: Found::Mounted(record.mounts[0].clone()),
        current: record
            .mounts
            .iter()
            .map(|mount| {
                if paths.contains(&mount.path.as_str()) {
                    Found::Mounted(mount.clone())
                } else {
                    Found::Missing
                }
            })
            .collect(),
    }
}

#[test]
fn records_are_held_against_what_is_mounted() {
    let all = ["/target", "/target/etc", "/target/var"];
    let r = record(false);
    assert!(validate_record(&r, &observed(&all, &r)).is_ok());

    let mut elsewhere = observed(&all, &r);
    elsewhere.namespace = (1, 3);
    assert!(matches!(
        validate_record(&r, &elsewhere),
        Err(RecordError::OtherNamespace)
    ));

    let extra = ["/target", "/target/etc", "/target/var", "/target/var/x"];
    assert!(matches!(
        validate_record(&r, &observed(&extra, &r)),
        Err(RecordError::TopologyChanged)
    ));
    assert!(matches!(
        validate_record(&r, &observed(&all[..2], &r)),
        Err(RecordError::TopologyChanged)
    ));

    // A pending mount may be gone, and no other.
    let mut pending = record(false);
    pending.pending_unmount = Some(pending.mounts[2].clone());
    assert!(validate_record(&pending, &observed(&all, &pending)).is_ok());
    assert!(validate_record(&pending, &observed(&all[..2], &pending)).is_ok());
    assert!(matches!(
        validate_record(&pending, &observed(&["/target", "/target/var"], &pending)),
        Err(RecordError::TopologyChanged)
    ));
    let mut hidden = observed(&all, &r);
    hidden.current[1] = Found::Missing;
    assert!(matches!(
        validate_record(&r, &hidden),
        Err(RecordError::MissingMount)
    ));

    for (change, text) in [
        (0, "mount ID changed for /target/etc; refusing unmount"),
        (1, "mount source changed for /target/etc; refusing unmount"),
        (
            2,
            "mount readonly attribute changed for /target/etc; refusing unmount",
        ),
    ] {
        let mut other = r.mounts[1].clone();
        match change {
            0 => other.id = 5,
            1 => other.source = "x".into(),
            _ => other.readonly = false,
        }
        let mut facts = observed(&all, &r);
        facts.current[1] = Found::Mounted(other);
        assert_eq!(validate_record(&r, &facts).unwrap_err().message(), text);
    }
    let mut failed = observed(&all, &r);
    failed.current[2] = Found::Failed;
    assert!(matches!(
        validate_record(&r, &failed),
        Err(RecordError::CurrentFailed(2))
    ));
    let mut short = record(false);
    short.mounts.pop();
    assert!(matches!(
        validate_record(&short, &observed(&all, &short)),
        Err(RecordError::Shape(ShapeError::MountCount))
    ));
}

#[test]
fn failed_findmnt_tells_nothing_unless_the_target_is_gone() {
    let all = ["/target", "/target/etc", "/target/var"];
    let r = record(false);
    let mut facts = observed(&all, &r);
    facts.subtree = None;
    assert!(matches!(
        validate_record(&r, &facts),
        Err(RecordError::SubtreeFailed)
    ));
    let mut pending = record(false);
    pending.pending_unmount = Some(pending.mounts[0].clone());
    let mut facts = observed(&all, &pending);
    facts.subtree = None;
    facts.target = Found::Missing;
    assert!(matches!(
        validate_record(&pending, &facts),
        Err(RecordError::TopologyChanged)
    ));
}

/// Runs a teardown against a table of mounts; `crash` stops before the given action.
fn tear_down(
    record: MountRecord,
    mounted: &mut Vec<MountIdentity>,
    crash: usize,
) -> (Option<MountRecord>, Vec<String>) {
    let mut disk = Some(record.clone());
    let mut unmounted = Vec::new();
    let mut teardown = Teardown::new(record);
    for step in 0.. {
        if step == crash {
            break;
        }
        enum Next {
            Performed,
            Inspected(Option<MountIdentity>),
            Done,
        }
        let next = match teardown.action() {
            TeardownAction::Write(r) => {
                disk = Some(r.clone());
                Next::Performed
            }
            TeardownAction::Inspect(path) => {
                Next::Inspected(mounted.iter().find(|m| m.path == path).cloned())
            }
            TeardownAction::Unmount(path) => {
                unmounted.push(path.to_string());
                mounted.retain(|m| m.path != path);
                Next::Performed
            }
            TeardownAction::Remove => {
                disk = None;
                Next::Performed
            }
            TeardownAction::Done => Next::Done,
        };
        teardown = match next {
            Next::Performed => teardown.performed(),
            Next::Inspected(current) => teardown.inspected(current.as_ref()).unwrap(),
            Next::Done => break,
        };
    }
    (disk, unmounted)
}

#[test]
fn teardown_unmounts_the_deepest_first() {
    let r = record(false);
    let mut mounted = r.mounts.clone();
    let (disk, unmounted) = tear_down(r, &mut mounted, usize::MAX);
    assert!(disk.is_none());
    assert!(mounted.is_empty());
    assert_eq!(unmounted, ["/target/var", "/target/etc", "/target"]);

    let mut shuffled = record(false);
    shuffled.mounts.swap(0, 2);
    let mut mounted = shuffled.mounts.clone();
    let (_, unmounted) = tear_down(shuffled, &mut mounted, usize::MAX);
    assert_eq!(unmounted.last().unwrap(), "/target");
}

/// What is there to see of a table of mounts; `findmnt` fails where the target is gone.
fn look(record: &MountRecord, mounted: &[MountIdentity]) -> Observed {
    let at = |path: &str| match mounted.iter().find(|m| m.path == path) {
        Some(m) => Found::Mounted(m.clone()),
        None => Found::Missing,
    };
    let within: Vec<Filesystem> = mounted
        .iter()
        .filter(|m| m.path.starts_with(&record.target))
        .map(|m| filesystem(&m.path, Some(m.id), "ro"))
        .collect();
    Observed {
        namespace: (1, 2),
        subtree: if within.is_empty() { None } else { Some(within) },
        target: at(&record.target),
        current: record.mounts.iter().map(|m| at(&m.path)).collect(),
    }
}

#[test]
fn teardown_survives_a_crash_at_every_step() {
    let mut refused = Vec::new();
    for crash in 0..12 {
        let r = record(false);
        let mut mounted = r.mounts.clone();
        mounted.push(MountIdentity {
            path: "/unrelated".into(),
            id: 1,
            source: "source".into(),
            readonly: true,
        });
        let (disk, _) = tear_down(r, &mut mounted, crash);
        if let Some(left) = disk {
            let outcome = validate_record(&left, &look(&left, &mounted));
            if left.pending_unmount.is_none() && left.mounts.len() < 3 {
                assert!(matches!(
                    outcome,
                    Err(RecordError::Shape(ShapeError::MountCount))
                ));
                refused.push(crash);
                // All that the record names is still there.
                assert_eq!(mounted.len(), left.mounts.len() + 1);
                continue;
            }
            assert!(outcome.is_ok(), "stopped at {crash}: {outcome:?}");
            let (disk, _) = tear_down(left, &mut mounted, usize::MAX);
            assert!(disk.is_none());
        }
        assert_eq!(mounted.len(), 1);
        assert_eq!(mounted[0].path, "/unrelated");
    }
    // Only between two mounts is nothing pending.
    assert_eq!(refused, [4, 8]);
}

#[test]
fn reduced_records_are_accepted_while_a_mount_is_pending() {
    let mut r = record(true);
    r.mounts.pop();
    r.pending_unmount = Some(r.mounts[1].clone());
    // `etc` is pending and gone.
    assert!(validate_record(&r, &look(&r, &r.mounts[..1])).is_ok());
    // It is pending and still there.
    assert!(validate_record(&r, &look(&r, &r.mounts)).is_ok());
    // The target itself is pending and gone.
    let mut last = record(true);
    last.mounts.truncate(1);
    last.pending_unmount = Some(last.mounts[0].clone());
    assert!(validate_record(&last, &look(&last, &[])).is_ok());

    let shape = |r: &MountRecord| match validate_record(r, &look(r, &r.mounts)) {
        Err(RecordError::Shape(e)) => e,
        other => panic!("unexpected outcome {other:?}"),
    };
    let mut none = last.clone();
    none.mounts.clear();
    assert_eq!(shape(&none), ShapeError::MountCount);
    let mut long = record(true);
    long.pending_unmount = Some(long.mounts[0].clone());
    long.mounts.push(long.mounts[0].clone());
    assert_eq!(shape(&long), ShapeError::MountCount);
    let mut other = r.clone();
    other.mounts[1].path = "/target/var".into();
    assert_eq!(shape(&other), ShapeError::Topology);
    let mut writable = r.clone();
    writable.mounts[0].readonly = false;
    assert_eq!(shape(&writable), ShapeError::RootWritable);
    let mut state = r.clone();
    state.mounts[1].readonly = true;
    assert_eq!(shape(&state), ShapeError::StateAttributes);
    let mut foreign = r.clone();
    foreign.pending_unmount = Some(record(true).mounts[2].clone());
    assert_eq!(shape(&foreign), ShapeError::ForeignPending);
}

#[test]
fn teardown_refuses_a_changed_mount() {
    let r = record(false);
    let mut other = r.mounts[2].clone();
    other.id = 99;
    let teardown = Teardown::new(r).performed();
    let error = teardown.inspected(Some(&other)).unwrap_err();
    assert_eq!(
        error.message(),
        "pending mount identity changed; refusing recovery"
    );
}

#[test]
fn assembly_unmounts_what_it_mounted() {
    let identity = |path: &str, readonly| MountIdentity {
        path: path.into(),
        id: 1,
        source: "s".into(),
        readonly,
    };
    let events = vec![
        AssemblyEvent::Performed,
        AssemblyEvent::Performed,
        AssemblyEvent::Namespace(3, 4),
        AssemblyEvent::Identity(identity("/t", true)),
        AssemblyEvent::Performed,
        AssemblyEvent::Identity(identity("/t/etc", false)),
        AssemblyEvent::Performed,
        AssemblyEvent::Identity(identity("/t/var", false)),
    ];
    let owned: [&[&str]; 8] = [
        &[],
        &["/t"],
        &["/t"],
        &["/t"],
        &["/t"],
        &["/t/etc", "/t"],
        &["/t/etc", "/t"],
        &["/t/var", "/t/etc", "/t"],
    ];
    let contexts = [
        None,
        Some("Opening mounted deployment root"),
        Some("Recording mount namespace identity"),
        Some("Recording deployment root mount"),
        Some("Assembling offline deployment mount"),
        Some("Assembling offline deployment mount"),
        Some("Assembling offline deployment mount"),
        Some("Assembling offline deployment mount"),
    ];
    let mut assembly = Assembly::new("/s", "/t", true);
    for (i, event) in events.into_iter().enumerate() {
        let failure = assembly.failed();
        assert_eq!(failure.unmount, owned[i]);
        assert_eq!(failure.context, contexts[i]);
        assert_eq!(failure.tells_cleanup, i != 3);
        assembly.report(event);
    }
    assert_eq!(assembly.stage(), AssemblyStage::CreateRecord);
    let made = assembly.record();
    assert_eq!((made.namespace_dev, made.namespace_ino), (3, 4));
    assert!(validate_record_shape(made).is_ok());
    assembly.report(AssemblyEvent::Performed);
    assert_eq!(assembly.stage(), AssemblyStage::Done);
    assert_eq!(failure_context("x", None), "x");
    assert_eq!(
        failure_context("x", Some("busy")),
        "x (cleanup also failed: busy)"
    );
}

#[test]
fn mounts_are_handed_out_with_their_attribute() {
    for writable in [false, true] {
        let mut assembly = Assembly::new("/s", "/t", writable);
        let mut attached = Vec::new();
        let mut identified = Vec::new();
        loop {
            let event = match assembly.action() {
                AssemblyAction::Attach(a) => {
                    attached.push((a.part, a.path, a.readonly));
                    AssemblyEvent::Performed
                }
                AssemblyAction::OpenRoot => {
                    assert_eq!(attached.len(), 1);
                    AssemblyEvent::Performed
                }
                AssemblyAction::Namespace => AssemblyEvent::Namespace(3, 4),
                AssemblyAction::Identify(path) => {
                    let (_, last, readonly) = &attached[attached.len() - 1];
                    assert_eq!(&path, last);
                    identified.push(path.clone());
                    AssemblyEvent::Identity(MountIdentity {
                        path,
                        id: 10 + attached.len() as u64,
                        source: "s".into(),
                        readonly: *readonly,
                    })
                }
                AssemblyAction::CreateRecord(record) => {
                    assert!(validate_record_shape(record).is_ok());
                    assert_eq!(record.writable_state, writable);
                    assert_eq!(record.mounts.len(), 3);
                    assert!(record.pending_unmount.is_none());
                    AssemblyEvent::Performed
                }
                AssemblyAction::Done => break,
            };
            assembly.report(event);
        }
        assert_eq!(
            attached,
            [
                (Part::Root, "/t".to_string(), true),
                (Part::Etc, "/t/etc".to_string(), !writable),
                (Part::Var, "/t/var".to_string(), !writable),
            ]
        );
        assert_eq!(identified, ["/t", "/t/etc", "/t/var"]);
    }
}
