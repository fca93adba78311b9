use bootc_verified::bcvk::{BcvkInstallOpts, InstallEnv, SealState};
use bootc_verified::tmt::commands::{
    base_log_dir, discovery_argv, help_argv, inspect_argv, launch_argv, log_argv, plan_bcvk_opts,
    plan_env_vars, remove_argv, supports_log_dir, test_env, tmt_argv, tmt_context,
    tmt_unsafe_behavior_args, BindStorage, TMT_CONNECT_REBOOT_UNSAFE_BEHAVIOR,
};
use bootc_verified::tmt::disk::{
    fresh_install_resources_dir, fresh_install_soft_reboot_command, initial_disk_source,
    reboot_command_of, DiskAction, DiskPreparation, RebootError,
};
use bootc_verified::tmt::libvirt::{
    bcvk_run_args, is_executable, libvirt_socket_path, resolve_virsh,
    validate_libvirt_connection, ConnectionError, LibvirtConnection, ProgramFacts, SocketFacts,
};
use bootc_verified::tmt::names::{
    boot_context, distro_of, distro_supports_bind_storage_ro, generate_random_suffix,
    listing_is_sealed, sanitize_plan_name, suffix_of, variant_of, vm_name_for, BootType,
};
use bootc_verified::tmt::provision::{
    infra_diagnostics, manual_vm_name, preserved_lines, provision_argv, provision_opts,
    provision_vm_name, provisioned_lines, ssh_key_path,
};
use bootc_verified::tmt::ready::{
    inspect_vm, not_ready_message, ready_step, ssh_argv, ssh_failed_message, ssh_progress, ssh_step,
    vm_access, ReadyStep, SshStep,
};
use bootc_verified::tmt::run::{
    failure_lines, summary_lines, Abort, PlannedTest, Stage, Step, TestRun,
};

fn strings(list: &[&str]) -> Vec<String> {
    list.iter().map(|s| s.to_string()).collect()
}

#[test]
fn test_boot_context_values() {
    assert_eq!(
        boot_context(&BootType::Uki, Some(&SealState::Sealed)),
        ["--context=boot_type=uki", "--context=seal_state=sealed"]
    );
    assert_eq!(
        boot_context(&BootType::Bls, None),
        [
            "--context=boot_type=bls",
            "--context=seal_state=unspecified"
        ]
    );
}

const SOCKET: SocketFacts = SocketFacts {
    is_socket: true,
    dev: 7,
    ino: 8,
};

const PROGRAM: ProgramFacts = ProgramFacts {
    is_file: true,
    mode: 0o100755,
};

#[test]
fn test_libvirt_connection_validation_and_bcvk_argv() {
    let socket = "/tmp/x/virtqemud.sock";
    let virsh = "/tmp/x/virsh-fake";
    let uri = format!("qemu+unix:///session?socket={socket}");
    let connection =
        validate_libvirt_connection(&uri, Some(SOCKET), virsh, Some(PROGRAM)).unwrap();
    assert_eq!(connection.uri, uri);
    assert_eq!(connection.socket_path, socket);
    assert_eq!(
        bcvk_run_args(Some(&uri)),
        ["libvirt", "--connect", uri.as_str(), "run"]
    );
    assert_eq!(bcvk_run_args(None), ["libvirt", "run"]);
    assert!(validate_libvirt_connection(
        &format!("qemu+unix:///session?socket={socket}.missing"),
        None,
        virsh,
        Some(PROGRAM)
    )
    .is_err());
    assert!(validate_libvirt_connection(
        &format!("qemu+unix:///session?socket={socket}&socket={socket}"),
        Some(SOCKET),
        virsh,
        Some(PROGRAM)
    )
    .is_err());
    assert!(validate_libvirt_connection(
        &format!("qemu+unix:///other?socket={socket}"),
        Some(SOCKET),
        virsh,
        Some(PROGRAM)
    )
    .is_err());
}

#[test]
fn each_connection_error_has_its_input() {
    assert!(matches!(
        libvirt_socket_path("qemu:///system"),
        Err(ConnectionError::NoQuery)
    ));
    assert!(matches!(
        libvirt_socket_path("qemu+unix:///session?socket=relative"),
        Err(ConnectionError::NoAbsoluteSocket)
    ));
    assert!(matches!(
        libvirt_socket_path("qemu+unix:///session?x=/s"),
        Err(ConnectionError::NoAbsoluteSocket)
    ));
    let uri = "qemu+unix:///session?socket=/s";
    let check = |socket, virsh| validate_libvirt_connection(uri, socket, "/v", virsh);
    assert_eq!(
        check(None, None).unwrap_err().message(),
        "Reading libvirt socket /s"
    );
    let plain = SocketFacts {
        is_socket: false,
        ..SOCKET
    };
    assert_eq!(
        check(Some(plain), None).unwrap_err().message(),
        "libvirt socket path is not a Unix socket: /s"
    );
    assert_eq!(
        check(Some(SOCKET), None).unwrap_err().message(),
        "Reading virsh executable /v"
    );
    let data = ProgramFacts {
        mode: 0o100644,
        ..PROGRAM
    };
    assert_eq!(
        check(Some(SOCKET), Some(data)).unwrap_err().message(),
        "virsh path is not an executable file: /v"
    );
    let connection = check(Some(SOCKET), Some(PROGRAM)).unwrap();
    assert_eq!(connection.socket_dev, "7");
    assert_eq!(connection.socket_ino, "8");
    assert!(is_executable(0o001));
    assert!(!is_executable(0o666));
    assert_eq!(resolve_virsh("/usr/bin/virsh\n").unwrap(), "/usr/bin/virsh");
    assert_eq!(
        resolve_virsh(" /opt/virsh ").unwrap_err().message(),
        "fresh-install tests require canonical /usr/bin/virsh, found /opt/virsh"
    );
}

#[test]
fn test_fresh_install_is_the_only_plan_granted_reboot_permission() {
    assert!(tmt_unsafe_behavior_args(false).is_empty());
    assert_eq!(
        tmt_unsafe_behavior_args(true),
        [TMT_CONNECT_REBOOT_UNSAFE_BEHAVIOR]
    );
}

#[test]
fn names_of_machines() {
    assert_eq!(sanitize_plan_name("/tmt/plans/a b_c"), "tmt-plans-a-b_c");
    assert_eq!(sanitize_plan_name("//"), "plan");
    assert_eq!(sanitize_plan_name("/größe.1/"), "größe-1");
    let once = sanitize_plan_name("--x--");
    assert_eq!(sanitize_plan_name(&once), once);
    assert_eq!(vm_name_for("abc12345", "/p"), "bootc-tmt-abc12345-p");
    assert_eq!(suffix_of(&vec![0, 25, 26, 35]), "az09");
    let suffix = generate_random_suffix();
    assert_eq!(suffix.len(), 8);
    assert!(suffix
        .chars()
        .all(|c| c.is_ascii_lowercase() || c.is_ascii_digit()));
    let many: Vec<String> = (0..20).map(|_| generate_random_suffix()).collect();
    assert!(many.iter().any(|s| *s != suffix));
}

#[test]
fn images_tell_of_themselves() {
    assert_eq!(distro_of(" fedora-42\n").unwrap(), "fedora-42");
    assert_eq!(distro_of(" \n"), None);
    assert_eq!(variant_of("coreos\n"), "coreos");
    assert_eq!(variant_of("\n"), "unknown");
    assert!(listing_is_sealed("EFI\ngrub2\n"));
    assert!(!listing_is_sealed("grub2\n"));
    assert!(!listing_is_sealed(""));
    assert!(distro_supports_bind_storage_ro("centos-10"));
    assert!(!distro_supports_bind_storage_ro("centos-9"));
}

#[test]
fn context_and_options() {
    assert_eq!(
        tmt_context(
            &strings(&["a=b"]),
            "fedora-42",
            "coreos",
            BootType::Bls,
            Some(SealState::Unsealed)
        ),
        [
            "--context=a=b",
            "--context=running_env=image_mode",
            "--context=distro=fedora-42",
            "--context=VARIANT_ID=coreos",
            "--context=boot_type=bls",
            "--context=seal_state=unsealed"
        ]
    );
    assert_eq!(BindStorage::decide(true, "fedora-42", false), BindStorage::Use);
    assert_eq!(
        BindStorage::decide(true, "centos-9", true),
        BindStorage::Disabled
    );
    assert_eq!(
        BindStorage::decide(true, "centos-9", false),
        BindStorage::Unsupported
    );
    assert_eq!(
        BindStorage::decide(false, "fedora-42", false),
        BindStorage::NotWanted
    );
    assert_eq!(
        BindStorage::Unsupported.note("centos-9").unwrap(),
        "Note: Test wants bind storage but skipping on centos-9 (missing systemd.extra-unit.* support)"
    );
    assert!(BindStorage::Use.note("x").is_none());
    assert_eq!(
        plan_env_vars(BindStorage::Use, Some("up"), Some("br")),
        ["BOOTC_upgrade_image=up", "BOOTC_bridge_image=br"]
    );
    assert!(plan_env_vars(BindStorage::Disabled, Some("up"), None).is_empty());
    let install = BcvkInstallOpts {
        kargs: strings(&["x"]),
        ..Default::default()
    };
    assert_eq!(
        plan_bcvk_opts(BindStorage::Use, "fedora-coreos-42", "coreos", &install),
        ["--bind-storage-ro", "--filesystem=xfs", "--karg=x"]
    );
    assert_eq!(
        plan_bcvk_opts(BindStorage::NotWanted, "centos-10", "coreos", &install),
        ["--karg=x"]
    );
}

#[test]
fn command_lines() {
    assert_eq!(base_log_dir(Some("/l"), Some("/e")), "/l");
    assert_eq!(base_log_dir(None, Some("/e")), "/e");
    assert_eq!(base_log_dir(None, Some("")), "/var/tmp/tmt");
    assert_eq!(base_log_dir(None, None), "/var/tmp/tmt");
    assert!(supports_log_dir(Some("  --log-dir <DIR>")));
    assert!(!supports_log_dir(Some("")));
    assert!(!supports_log_dir(None));
    assert_eq!(
        log_argv(true, "/l/", "vm"),
        ["--log-dir=journal,console=/l/vm"]
    );
    assert!(log_argv(false, "/l", "vm").is_empty());
    assert_eq!(
        launch_argv(
            Some("u"),
            "vm",
            &strings(&["--firmware=x"]),
            &strings(&["--o"]),
            &strings(&["--l"]),
            "img"
        ),
        [
            "libvirt",
            "--connect",
            "u",
            "run",
            "--name",
            "vm",
            "--detach",
            "--firmware=x",
            "--label=bootc.test=1",
            "--o",
            "--l",
            "img"
        ]
    );
    assert_eq!(
        remove_argv(None, "vm"),
        ["libvirt", "rm", "--stop", "--force", "vm"]
    );
    assert_eq!(
        inspect_argv(Some("u"), "vm"),
        ["libvirt", "--connect", "u", "inspect", "vm", "--format=json"]
    );
    assert_eq!(help_argv(None), ["libvirt", "run", "--help"]);
    assert_eq!(
        discovery_argv(&strings(&["--context=a"])),
        ["--context=a", "plan", "ls", "--filter", "enabled:true"]
    );
    let vars = test_env(true, &strings(&["A=1"]), &strings(&["B=2"]));
    assert_eq!(
        vars,
        [
            "TMT_SCRIPTS_DIR=/var/lib/tmt/scripts",
            "BCVK_EXPORT=1",
            "BOOTC_variant=composefs",
            "A=1",
            "B=2"
        ]
    );
    assert_eq!(
        test_env(false, &vec![], &vec![])[2],
        "BOOTC_variant=ostree"
    );
    assert_eq!(
        tmt_argv(
            true,
            &strings(&["--context=a"]),
            "vm",
            &strings(&["A=1"]),
            Some("cmd"),
            2222,
            "/k",
            "/plan"
        ),
        [
            TMT_CONNECT_REBOOT_UNSAFE_BEHAVIOR,
            "--context=a",
            "run",
            "--id",
            "vm",
            "--all",
            "--environment",
            "A=1",
            "provision",
            "--how=connect",
            "--guest=localhost",
            "--user=root",
            "--soft-reboot=cmd",
            "--port",
            "2222",
            "--key",
            "/k",
            "plan",
            "--name",
            "/plan"
        ]
    );
}

#[test]
fn machines_become_ready() {
    let ready = r#"{"ssh_port": 2222, "ssh_private_key": "KEY", "x": [1, null]}"#;
    let access = inspect_vm(ready).unwrap();
    assert_eq!((access.ssh_port, access.ssh_key.as_str()), (2222, "KEY"));
    for text in [
        "",
        "[]",
        r#"{"ssh_port": "2222", "ssh_private_key": "KEY"}"#,
        r#"{"ssh_port": -1, "ssh_private_key": "KEY"}"#,
        r#"{"ssh_port": 2222}"#,
    ] {
        assert!(inspect_vm(text).is_none(), "{text}");
    }
    assert_eq!(vm_access(Some(65536 + 22), Some("k")).unwrap().ssh_port, 22);
    assert!(matches!(ready_step(1, Some(ready)), ReadyStep::Ready(_)));
    assert!(matches!(ready_step(59, None), ReadyStep::Again));
    assert!(matches!(ready_step(60, Some("{}")), ReadyStep::TimedOut));
    assert_eq!(
        not_ready_message("vm"),
        "VM vm did not become ready within 60 seconds"
    );
    assert_eq!(ssh_step(1, Some("root\n")), SshStep::Connected);
    assert_eq!(ssh_step(1, Some("core")), SshStep::Again);
    assert_eq!(ssh_step(60, None), SshStep::Failed);
    assert_eq!(
        ssh_progress(20).unwrap(),
        "Waiting for SSH... attempt 20/60"
    );
    assert!(ssh_progress(21).is_none());
    assert_eq!(
        ssh_failed_message(),
        "SSH connectivity check failed after 60 attempts"
    );
    let argv = ssh_argv("/k", 22);
    assert_eq!(argv[..4], ["-i", "/k", "-p", "22"]);
    assert_eq!(argv.last().unwrap(), "export TEST=value; whoami");
}

fn planned(plan: &str, fresh: bool) -> PlannedTest {
    PlannedTest {
        plan: plan.into(),
        vm_name: format!("vm-{plan}"),
        fresh_install_disk: fresh,
    }
}

#[test]
fn runs_record_every_plan() {
    let mut run = TestRun::new(vec![planned("a", false), planned("b", true)], false, true);
    let mut stages = Vec::new();
    while let Some((stage, _)) = run.stage() {
        stages.push(stage);
        if stages.len() == 8 {
            // The first machine cannot be reached.
            assert_eq!(run.report(false), Step::PlanDone { remove_vm: true });
        } else if stage == Stage::Tmt {
            assert_eq!(run.report(true), Step::PlanDone { remove_vm: false });
        } else {
            assert_eq!(run.report(true), Step::Next);
        }
    }
    assert_eq!(stages[0], Stage::LogDir);
    assert_eq!(stages[7], Stage::Ssh);
    assert_eq!(stages[stages.len() - 2], Stage::Disk);
    assert!(!run.all_passed());
    assert_eq!(summary_lines(run.results()), ["a: FAILED", "b: PASSED"]);
    assert_eq!(
        failure_lines(run.results()),
        ["  a: run ID unavailable; see the TMT log directory above"]
    );
}

#[test]
fn runs_end_with_the_host() {
    let mut run = TestRun::new(vec![planned("a", false), planned("b", false)], true, false);
    assert_eq!(run.stage().unwrap().0, Stage::Launch);
    assert_eq!(run.report(false), Step::Aborted(Abort::Launch));
    assert!(run.stage().is_none());
    assert_eq!(summary_lines(run.results()), ["a: FAILED"]);

    let mut logs = TestRun::new(vec![planned("a", false)], false, true);
    assert_eq!(logs.report(false), Step::Aborted(Abort::LogDir));
    assert!(logs.results().is_empty());

    let mut disk = TestRun::new(vec![planned("a", true)], false, false);
    while disk.stage().unwrap().0 != Stage::Disk {
        disk.report(true);
    }
    assert_eq!(disk.report(false), Step::Aborted(Abort::Disk));

    let mut failed = TestRun::new(vec![planned("a", false)], true, false);
    while failed.stage().unwrap().0 != Stage::Tmt {
        failed.report(true);
    }
    assert_eq!(failed.report(false), Step::PlanDone { remove_vm: false });
    assert_eq!(
        failure_lines(failed.results()),
        ["  a: tmt run -i vm-a report -vvv"]
    );
    let mut passed = TestRun::new(vec![], false, false);
    assert!(passed.stage().is_none());
    assert!(passed.all_passed());
    assert!(passed.results().is_empty());
    passed = TestRun::new(vec![planned("a", false)], false, false);
    while passed.stage().is_some() {
        passed.report(true);
    }
    assert!(passed.all_passed());
    assert!(failure_lines(passed.results()).is_empty());
}

fn connection() -> LibvirtConnection {
    LibvirtConnection {
        uri: "u".into(),
        socket_path: "/s".into(),
        socket_dev: "1".into(),
        socket_ino: "2".into(),
        virsh_path: "/usr/bin/virsh".into(),
    }
}

const DISKS: &str = " Type   Device   Target   Source\n------------\n file   cdrom    sda      /iso\n file   disk     vda      /images/a.raw\n";

#[test]
fn disks_are_recorded_before_they_are_made() {
    let mut preparation = DiskPreparation::new("/w/d", "vm", &connection());
    let mut log = Vec::new();
    loop {
        let (line, output) = match preparation.action() {
            DiskAction::CreateDir(dir) => (format!("mkdir {dir}"), ""),
            DiskAction::Read(argv) => {
                let output = match argv[6].as_str() {
                    "domuuid" => "uuid\n",
                    "domid" => "5\n",
                    "domblklist" => DISKS,
                    "vol-path" => " /vol \n",
                    "vol-key" => "key\n",
                    _ => "pool\n",
                };
                (argv[6..].join(" "), output)
            }
            DiskAction::Run(argv) => (argv[6..].join(" "), ""),
            DiskAction::WriteRecord(path, record) => (
                format!("write {path} {} {}", record.initial_disk, record.volume_path),
                "",
            ),
            DiskAction::Done(path) => {
                log.push(format!("done {path}"));
                break;
            }
        };
        log.push(line);
        preparation.report(output).unwrap();
    }
    assert_eq!(
        log,
        [
            "mkdir /w/d",
            "domuuid vm",
            "domid uuid",
            "domblklist uuid --details",
            "write /w/d/vm.json /images/a.raw ",
            "vol-create-as default vm-fresh-install.raw 20G --format raw",
            "vol-path --pool default vm-fresh-install.raw",
            "vol-key --pool default vm-fresh-install.raw",
            "pool-uuid default",
            "write /w/d/vm.json /images/a.raw /vol",
            "attach-disk uuid /vol vdb --live --config --driver qemu --subdriver raw",
            "done /w/d/vm.json",
        ]
    );
    assert_eq!(
        preparation.record().retained_line(),
        "Fresh-install resources retained: domain=vm uuid=uuid volume=vm-fresh-install.raw pool_uuid=pool key=key path=/vol"
    );
    assert_eq!(preparation.record().active_domain_id, "5");
}

#[test]
fn each_disk_error_has_its_input() {
    let mut preparation = DiskPreparation::new("/d", "vm", &connection());
    preparation.report("").unwrap();
    match preparation.action() {
        DiskAction::Read(argv) => assert_eq!(
            argv,
            [
                "timeout",
                "--kill-after=10s",
                "30s",
                "/usr/bin/virsh",
                "--connect",
                "u",
                "domuuid",
                "vm"
            ]
        ),
        _ => panic!("unexpected action"),
    }
    assert_eq!(
        preparation.report(" \n").unwrap_err().message(),
        "virsh returned an empty UUID for domain vm"
    );
    preparation.report("uuid").unwrap();
    assert_eq!(
        preparation.report("-\n").unwrap_err().message(),
        "owned domain uuid is not active"
    );
    preparation.report("5").unwrap();
    assert_eq!(
        preparation.report("file disk vdb /x").unwrap_err().message(),
        "Could not identify the owned domain's vda disk"
    );
    assert_eq!(initial_disk_source(DISKS).unwrap(), "/images/a.raw");
    assert_eq!(
        fresh_install_resources_dir("/w"),
        "/w/target/tmt-fresh-install-disks"
    );
}

#[test]
fn test_fresh_install_soft_reboot_command_quotes_paths() {
    assert_eq!(
        fresh_install_soft_reboot_command("/tmp/helper.sh", "/tmp/record.json").unwrap(),
        "/bin/bash /tmp/helper.sh /tmp/record.json"
    );
    let helper = "/tmp/reboot helper with 'quote'.sh";
    let record = "/tmp/record with spaces; touch injected 'record'";
    let command = fresh_install_soft_reboot_command(helper, record).unwrap();
    assert_eq!(
        shlex::split(&command).unwrap(),
        ["/bin/bash", helper, record]
    );
    assert_eq!(
        fresh_install_soft_reboot_command("a\0", "b"),
        Err(RebootError::Helper)
    );
    assert_eq!(
        fresh_install_soft_reboot_command("a", "b\0"),
        Err(RebootError::Record)
    );
    assert_eq!(reboot_command_of("h", "r"), "/bin/bash h r");
}

#[test]
fn machines_for_use_by_hand() {
    assert_eq!(provision_vm_name(Some("mine")), "mine");
    let name = provision_vm_name(None);
    assert!(name.starts_with("bootc-tmt-manual-"));
    assert_eq!(name.len(), "bootc-tmt-manual-".len() + 8);
    assert_eq!(manual_vm_name("x"), "bootc-tmt-manual-x");
    let env = InstallEnv {
        variant: Some("composefs".into()),
        bootloader: None,
        filesystem: None,
        seal_state: Some("sealed".into()),
        secureboot_dir: None,
    };
    assert!(provision_opts(&env, true).is_sealed());
    assert!(!provision_opts(&env, false).is_sealed());
    assert!(provision_opts(&env, false).composefs_backend);
    assert_eq!(
        provision_argv("vm", &strings(&["--firmware=x"]), "img"),
        [
            "libvirt",
            "run",
            "--name",
            "vm",
            "--detach",
            "--firmware=x",
            "--label=bootc.test=1",
            "img"
        ]
    );
    assert_eq!(ssh_key_path("vm"), "target/vm.ssh-key");
    let lines = provisioned_lines("vm", 22, "k");
    assert_eq!(lines[2], "VM provisioned successfully!");
    assert_eq!(lines[10], "    --guest localhost --port 22 \\");
    assert_eq!(
        lines[15],
        "  ssh -i k -p 22 -o IdentitiesOnly=yes root@localhost"
    );
    let lines = preserved_lines("vm", 22, "k", Some("u"));
    assert_eq!(lines[4], "VM name: vm");
    assert_eq!(
        lines[12],
        "  bcvk libvirt --connect u rm --stop --force vm"
    );
}

#[test]
fn diagnostics_of_the_host() {
    let list = infra_diagnostics("/l", None, Some("/home/x"));
    let titles: Vec<&str> = list.iter().map(|d| d.title.as_str()).collect();
    assert_eq!(
        titles,
        [
            "df -h",
            "podman images",
            "bcvk libvirt list",
            "du -sh /l",
            "du -h --max-depth=1 /home/x (sorted)"
        ]
    );
    assert_eq!(list[2].argv, ["bcvk", "libvirt", "list"]);
    assert_eq!(infra_diagnostics("/l", Some("u"), None).len(), 4);
    assert_eq!(
        infra_diagnostics("/l", Some("u"), None)[2].argv,
        ["bcvk", "libvirt", "--connect", "u", "list"]
    );
}
