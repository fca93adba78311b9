//! The command lines of a test run.

use vstd::prelude::*;

use crate::bcvk::{prefixed, prefixed_texts, BcvkInstallOpts, SealState};
use crate::paths::{join_path, joined_path, law_joined_path};
use crate::text::{
    begins_with, concat2, concat3, decimal, decimal_of, has_part, no_texts, opt_str, opt_text,
    push_text, push_texts, same, texts,
};
use crate::tmt::libvirt::{bcvk_libvirt_args, bcvk_run_args, libvirt_args};
use crate::tmt::names::{boot_context, seal_text, BootType, DISTRO_CENTOS_9};

verus! {

/// The label of every test machine.
pub const TEST_LABEL: &'static str = "--label=bootc.test=1";

pub const BCVK_OPT_BIND_STORAGE_RO: &'static str = "--bind-storage-ro";

pub const ENV_BOOTC_UPGRADE_IMAGE: &'static str = "BOOTC_upgrade_image";

pub const ENV_BOOTC_BRIDGE_IMAGE: &'static str = "BOOTC_bridge_image";

pub const TMT_CONNECT_REBOOT_UNSAFE_BEHAVIOR: &'static str =
    "--allow-unsafe-behavior=provision/connect.reboot-commands";

/// Where logs go unless something else is chosen.
pub const DEFAULT_LOG_DIR: &'static str = "/var/tmp/tmt";

// ---------------------------------------------------------------------------
// The context
// ---------------------------------------------------------------------------

/// The context arguments of tmt: those of the user first, then what is known of the
/// image and of how it boots.
pub open spec fn context_args(
    user: Seq<Seq<char>>,
    distro: Seq<char>,
    variant_id: Seq<char>,
    boot_type: BootType,
    seal_state: Option<SealState>,
) -> Seq<Seq<char>> {
    prefixed("--context="@, user) + seq![
        "--context=running_env=image_mode"@,
        "--context=distro="@ + distro,
        "--context=VARIANT_ID="@ + variant_id,
        "--context=boot_type="@ + boot_type.text(),
        "--context=seal_state="@ + seal_text(seal_state),
    ]
}

/// The context arguments of tmt.
pub fn tmt_context(
    user: &Vec<String>,
    distro: &str,
    variant_id: &str,
    boot_type: BootType,
    seal_state: Option<SealState>,
) -> (r: Vec<String>)
    ensures
        texts(r@) == context_args(texts(user@), distro@, variant_id@, boot_type, seal_state),
{
    let mut args = prefixed_texts("--context=", user);
    push_text(&mut args, "--context=running_env=image_mode");
    let d = concat2("--context=distro=", distro);
    push_text(&mut args, d.as_str());
    let v = concat2("--context=VARIANT_ID=", variant_id);
    push_text(&mut args, v.as_str());
    let boot = boot_context(&boot_type, seal_state.as_ref());
    push_text(&mut args, boot[0].as_str());
    push_text(&mut args, boot[1].as_str());
    assert(texts(args@) =~= context_args(
        texts(user@),
        distro@,
        variant_id@,
        boot_type,
        seal_state,
    ));
    args
}

// ---------------------------------------------------------------------------
// Bind storage
// ---------------------------------------------------------------------------

/// Whether a machine gets the container storage of the host.
#[derive(Debug, Clone, Copy, PartialEq, Eq, Structural)]
pub enum BindStorage {
    /// It does.
    Use,
    /// The plan asks for it, and it was disabled.
    Disabled,
    /// The plan asks for it, and the distribution lacks what it takes.
    Unsupported,
    /// The plan does not ask for it.
    NotWanted,
}

/// Whether a machine gets the container storage of the host.
pub open spec fn bind_storage(wanted: bool, supported: bool, skip: bool) -> BindStorage {
    if !wanted {
        BindStorage::NotWanted
    } else if skip {
        BindStorage::Disabled
    } else if !supported {
        BindStorage::Unsupported
    } else {
        BindStorage::Use
    }
}

impl BindStorage {
    /// Whether a machine gets the container storage of the host, on the given
    /// distribution.
    pub fn decide(wanted: bool, distro: &str, skip: bool) -> (r: BindStorage)
        ensures
            r == bind_storage(wanted, !DISTRO_CENTOS_9@.is_prefix_of(distro@), skip),
    {
        let supported = crate::tmt::names::distro_supports_bind_storage_ro(distro);
        if !wanted {
            BindStorage::NotWanted
        } else if skip {
            BindStorage::Disabled
        } else if !supported {
            BindStorage::Unsupported
        } else {
            BindStorage::Use
        }
    }

    /// What to tell the user, where the plan does not get what it asks for.
    pub open spec fn note_text(self, distro: Seq<char>) -> Option<Seq<char>> {
        match self {
            BindStorage::Disabled => Some(
                "Note: Test requests bind storage but --skip-bind-storage was set; running without host container-storage mount"@,
            ),
            BindStorage::Unsupported => Some(
                "Note: Test wants bind storage but skipping on "@ + distro
                    + " (missing systemd.extra-unit.* support)"@,
            ),
            _ => None,
        }
    }

    /// What to tell the user, where the plan does not get what it asks for.
    pub fn note(self, distro: &str) -> (r: Option<String>)
        ensures
            opt_text(r) == self.note_text(distro@),
    {
        match self {
            BindStorage::Disabled => Some(
                "Note: Test requests bind storage but --skip-bind-storage was set; running without host container-storage mount".to_string(),
            ),
            BindStorage::Unsupported => Some(
                concat3(
                    "Note: Test wants bind storage but skipping on ",
                    distro,
                    " (missing systemd.extra-unit.* support)",
                ),
            ),
            _ => None,
        }
    }
}

/// The variables that the tests of a plan see on account of its bind storage: only
/// there can they reach the images.
pub open spec fn plan_env(
    bind: BindStorage,
    upgrade_image: Option<Seq<char>>,
    bridge_image: Option<Seq<char>>,
) -> Seq<Seq<char>> {
    if bind == BindStorage::Use {
        (match upgrade_image {
            Some(image) => seq![ENV_BOOTC_UPGRADE_IMAGE@ + "="@ + image],
            None => seq![],
        }) + (match bridge_image {
            Some(image) => seq![ENV_BOOTC_BRIDGE_IMAGE@ + "="@ + image],
            None => seq![],
        })
    } else {
        seq![]
    }
}

/// The variables that the tests of a plan see on account of its bind storage.
pub fn plan_env_vars(
    bind: BindStorage,
    upgrade_image: Option<&str>,
    bridge_image: Option<&str>,
) -> (r: Vec<String>)
    ensures
        texts(r@) == plan_env(bind, opt_str(upgrade_image), opt_str(bridge_image)),
{
    let mut vars = no_texts();
    if bind == BindStorage::Use {
        match upgrade_image {
            Some(image) => {
                let v = concat3(ENV_BOOTC_UPGRADE_IMAGE, "=", image);
                push_text(&mut vars, v.as_str());
            },
            None => {},
        }
        match bridge_image {
            Some(image) => {
                let v = concat3(ENV_BOOTC_BRIDGE_IMAGE, "=", image);
                push_text(&mut vars, v.as_str());
            },
            None => {},
        }
    }
    assert(texts(vars@) =~= plan_env(bind, opt_str(upgrade_image), opt_str(bridge_image)));
    vars
}

/// The install arguments of a plan's machine: bind storage, `xfs` on Fedora CoreOS,
/// and what holds for every machine of the run.
pub open spec fn plan_opts(
    bind: BindStorage,
    distro: Seq<char>,
    variant_id: Seq<char>,
    install_args: Seq<Seq<char>>,
) -> Seq<Seq<char>> {
    (if bind == BindStorage::Use {
        seq![BCVK_OPT_BIND_STORAGE_RO@]
    } else {
        seq![]
    }) + (if variant_id == "coreos"@ && "fedora"@.is_prefix_of(distro) {
        seq!["--filesystem=xfs"@]
    } else {
        seq![]
    }) + install_args
}

/// The install arguments of a plan's machine.
pub fn plan_bcvk_opts(
    bind: BindStorage,
    distro: &str,
    variant_id: &str,
    install: &BcvkInstallOpts,
) -> (r: Vec<String>)
    ensures
        texts(r@) == plan_opts(bind, distro@, variant_id@, install.install_args_spec()),
{
    let mut opts = no_texts();
    if bind == BindStorage::Use {
        push_text(&mut opts, BCVK_OPT_BIND_STORAGE_RO);
    }
    if same(variant_id, "coreos") && begins_with(distro, "fedora") {
        push_text(&mut opts, "--filesystem=xfs");
    }
    let install_args = install.install_args();
    push_texts(&mut opts, &install_args);
    assert(texts(opts@) =~= plan_opts(bind, distro@, variant_id@, install.install_args_spec()));
    opts
}

// ---------------------------------------------------------------------------
// Logs
// ---------------------------------------------------------------------------

/// Where logs go: what the command line says, else a `TMT_LOG_DIR` that is not empty,
/// else the default.
pub open spec fn log_dir(flag: Option<Seq<char>>, env: Option<Seq<char>>) -> Seq<char> {
    match flag {
        Some(dir) => dir,
        None => match env {
            Some(dir) => if dir.len() > 0 {
                dir
            } else {
                DEFAULT_LOG_DIR@
            },
            None => DEFAULT_LOG_DIR@,
        },
    }
}

/// Where logs go.
pub fn base_log_dir(flag: Option<&str>, env: Option<&str>) -> (r: String)
    ensures
        r@ == log_dir(opt_str(flag), opt_str(env)),
{
    match flag {
        Some(dir) => dir.to_string(),
        None => match env {
            Some(dir) => if dir.is_empty() {
                DEFAULT_LOG_DIR.to_string()
            } else {
                dir.to_string()
            },
            None => DEFAULT_LOG_DIR.to_string(),
        },
    }
}

/// The argument that has a machine write its journal and console below the log
/// directory, where `bcvk` knows it.
pub open spec fn log_args(supported: bool, base: Seq<char>, vm_name: Seq<char>) -> Seq<Seq<char>> {
    if supported {
        seq!["--log-dir=journal,console="@ + joined_path(base, vm_name)]
    } else {
        seq![]
    }
}

/// Whether `bcvk` knows `--log-dir`, by the help of its `run`; `None` where it has
/// none to show.
pub fn supports_log_dir(help: Option<&str>) -> (r: bool)
    ensures
        r == match opt_str(help) {
            Some(text) => crate::text::contains(text, "--log-dir"@),
            None => false,
        },
{
    match help {
        Some(text) => has_part(text, "--log-dir"),
        None => false,
    }
}

// ---------------------------------------------------------------------------
// The machine of a plan
// ---------------------------------------------------------------------------

/// The arguments of `bcvk` that launch a machine.
pub open spec fn launch_args(
    connect_uri: Option<Seq<char>>,
    vm_name: Seq<char>,
    firmware: Seq<Seq<char>>,
    opts: Seq<Seq<char>>,
    logs: Seq<Seq<char>>,
    image: Seq<char>,
) -> Seq<Seq<char>> {
    libvirt_args(connect_uri, "run"@) + seq!["--name"@, vm_name, "--detach"@] + firmware
        + seq![TEST_LABEL@] + opts + logs + seq![image]
}

/// The arguments of `bcvk` that launch a machine.
pub fn launch_argv(
    connect_uri: Option<&str>,
    vm_name: &str,
    firmware: &Vec<String>,
    opts: &Vec<String>,
    logs: &Vec<String>,
    image: &str,
) -> (r: Vec<String>)
    ensures
        texts(r@) == launch_args(
            opt_str(connect_uri),
            vm_name@,
            texts(firmware@),
            texts(opts@),
            texts(logs@),
            image@,
        ),
{
    let mut args = bcvk_run_args(connect_uri);
    push_text(&mut args, "--name");
    push_text(&mut args, vm_name);
    push_text(&mut args, "--detach");
    push_texts(&mut args, firmware);
    push_text(&mut args, TEST_LABEL);
    push_texts(&mut args, opts);
    push_texts(&mut args, logs);
    push_text(&mut args, image);
    assert(texts(args@) =~= launch_args(
        opt_str(connect_uri),
        vm_name@,
        texts(firmware@),
        texts(opts@),
        texts(logs@),
        image@,
    ));
    args
}

/// The arguments of `bcvk` that remove a machine.
pub open spec fn remove_args(connect_uri: Option<Seq<char>>, vm_name: Seq<char>) -> Seq<Seq<char>> {
    libvirt_args(connect_uri, "rm"@) + seq!["--stop"@, "--force"@, vm_name]
}

/// The arguments of `bcvk` that remove a machine.
pub fn remove_argv(connect_uri: Option<&str>, vm_name: &str) -> (r: Vec<String>)
    ensures
        texts(r@) == remove_args(opt_str(connect_uri), vm_name@),
{
    let mut args = bcvk_libvirt_args(connect_uri, "rm");
    push_text(&mut args, "--stop");
    push_text(&mut args, "--force");
    push_text(&mut args, vm_name);
    assert(texts(args@) =~= remove_args(opt_str(connect_uri), vm_name@));
    args
}

/// The arguments of `bcvk` that describe a machine.
pub fn inspect_argv(connect_uri: Option<&str>, vm_name: &str) -> (r: Vec<String>)
    ensures
        texts(r@) == libvirt_args(opt_str(connect_uri), "inspect"@) + seq![
            vm_name@,
            "--format=json"@,
        ],
{
    let mut args = bcvk_libvirt_args(connect_uri, "inspect");
    push_text(&mut args, vm_name);
    push_text(&mut args, "--format=json");
    assert(texts(args@) =~= libvirt_args(opt_str(connect_uri), "inspect"@) + seq![
        vm_name@,
        "--format=json"@,
    ]);
    args
}

/// The arguments of `bcvk` that show the help of its `run`.
pub fn help_argv(connect_uri: Option<&str>) -> (r: Vec<String>)
    ensures
        texts(r@) == libvirt_args(opt_str(connect_uri), "run"@).push("--help"@),
{
    let mut args = bcvk_run_args(connect_uri);
    push_text(&mut args, "--help");
    args
}

// ---------------------------------------------------------------------------
// tmt
// ---------------------------------------------------------------------------

/// The arguments that let tmt run the reboot commands of a connection: only plans that
/// install a second disk have them.
pub fn tmt_unsafe_behavior_args(fresh_install_disk: bool) -> (r: Vec<String>)
    ensures
        texts(r@) == (if fresh_install_disk {
            seq![TMT_CONNECT_REBOOT_UNSAFE_BEHAVIOR@]
        } else {
            seq![]
        }),
{
    let mut args = no_texts();
    if fresh_install_disk {
        push_text(&mut args, TMT_CONNECT_REBOOT_UNSAFE_BEHAVIOR);
    }
    assert(texts(args@) =~= (if fresh_install_disk {
        seq![TMT_CONNECT_REBOOT_UNSAFE_BEHAVIOR@]
    } else {
        seq![]
    }));
    args
}

/// Each text behind an `--environment`.
pub open spec fn environment(vars: Seq<Seq<char>>) -> Seq<Seq<char>>
    decreases vars.len(),
{
    if vars.len() == 0 {
        seq![]
    } else {
        environment(vars.drop_last()) + seq!["--environment"@, vars.last()]
    }
}

/// Each text behind an `--environment`.
fn environment_args(vars: &Vec<String>) -> (r: Vec<String>)
    ensures
        texts(r@) == environment(texts(vars@)),
{
    let mut args = no_texts();
    let mut i: usize = 0;
    let ghost all = texts(vars@);
    assert(all.take(0) =~= seq![]);
    while i < vars.len()
        invariant
            i <= vars@.len(),
            all == texts(vars@),
            texts(args@) == environment(all.take(i as int)),
        decreases vars@.len() - i,
    {
        push_text(&mut args, "--environment");
        push_text(&mut args, vars[i].as_str());
        assert(all.take(i + 1).drop_last() =~= all.take(i as int));
        assert(texts(args@) =~= environment(all.take(i + 1)));
        i = i + 1;
    }
    assert(all.take(i as int) =~= all);
    args
}

/// The variables of a test: where its scripts are, that the image is exported, the
/// backend, those of the user and those of the plan.
pub open spec fn test_vars(
    composefs_backend: bool,
    user: Seq<Seq<char>>,
    plan: Seq<Seq<char>>,
) -> Seq<Seq<char>> {
    seq![
        "TMT_SCRIPTS_DIR=/var/lib/tmt/scripts"@,
        "BCVK_EXPORT=1"@,
        if composefs_backend {
            "BOOTC_variant=composefs"@
        } else {
            "BOOTC_variant=ostree"@
        },
    ] + user + plan
}

/// The variables of a test.
pub fn test_env(composefs_backend: bool, user: &Vec<String>, plan: &Vec<String>) -> (r: Vec<String>)
    ensures
        texts(r@) == test_vars(composefs_backend, texts(user@), texts(plan@)),
{
    let mut vars = no_texts();
    push_text(&mut vars, "TMT_SCRIPTS_DIR=/var/lib/tmt/scripts");
    push_text(&mut vars, "BCVK_EXPORT=1");
    if composefs_backend {
        push_text(&mut vars, "BOOTC_variant=composefs");
    } else {
        push_text(&mut vars, "BOOTC_variant=ostree");
    }
    push_texts(&mut vars, user);
    push_texts(&mut vars, plan);
    assert(texts(vars@) =~= test_vars(composefs_backend, texts(user@), texts(plan@)));
    vars
}

/// How tmt reaches the machine; a plan that installs a second disk also has a command
/// for its reboots.
pub open spec fn connect_args(soft_reboot: Option<Seq<char>>) -> Seq<Seq<char>> {
    seq!["--how=connect"@, "--guest=localhost"@, "--user=root"@] + match soft_reboot {
        Some(command) => seq!["--soft-reboot="@ + command],
        None => seq![],
    }
}

/// The arguments of tmt that run a plan.
pub open spec fn test_args(
    fresh_install_disk: bool,
    context: Seq<Seq<char>>,
    run_id: Seq<char>,
    vars: Seq<Seq<char>>,
    soft_reboot: Option<Seq<char>>,
    port: nat,
    key_path: Seq<char>,
    plan: Seq<char>,
) -> Seq<Seq<char>> {
    (if fresh_install_disk {
        seq![TMT_CONNECT_REBOOT_UNSAFE_BEHAVIOR@]
    } else {
        seq![]
    }) + context + seq!["run"@, "--id"@, run_id, "--all"@] + environment(vars) + seq![
        "provision"@,
    ] + connect_args(soft_reboot) + seq![
        "--port"@,
        decimal(port),
        "--key"@,
        key_path,
        "plan"@,
        "--name"@,
        plan,
    ]
}

/// The arguments of tmt that run a plan. The provision step comes before the plan, as
/// its connection needs it.
pub fn tmt_argv(
    fresh_install_disk: bool,
    context: &Vec<String>,
    run_id: &str,
    vars: &Vec<String>,
    soft_reboot: Option<&str>,
    port: u16,
    key_path: &str,
    plan: &str,
) -> (r: Vec<String>)
    ensures
        texts(r@) == test_args(
            fresh_install_disk,
            texts(context@),
            run_id@,
            texts(vars@),
            opt_str(soft_reboot),
            port as nat,
            key_path@,
            plan@,
        ),
{
    let mut args = tmt_unsafe_behavior_args(fresh_install_disk);
    push_texts(&mut args, context);
    push_text(&mut args, "run");
    push_text(&mut args, "--id");
    push_text(&mut args, run_id);
    push_text(&mut args, "--all");
    let env = environment_args(vars);
    push_texts(&mut args, &env);
    push_text(&mut args, "provision");
    push_text(&mut args, "--how=connect");
    push_text(&mut args, "--guest=localhost");
    push_text(&mut args, "--user=root");
    match soft_reboot {
        Some(command) => {
            let arg = concat2("--soft-reboot=", command);
            push_text(&mut args, arg.as_str());
        },
        None => {},
    }
    let port_text = decimal_of(port as u64);
    push_text(&mut args, "--port");
    push_text(&mut args, port_text.as_str());
    push_text(&mut args, "--key");
    push_text(&mut args, key_path);
    push_text(&mut args, "plan");
    push_text(&mut args, "--name");
    push_text(&mut args, plan);
    assert(texts(args@) =~= test_args(
        fresh_install_disk,
        texts(context@),
        run_id@,
        texts(vars@),
        opt_str(soft_reboot),
        port as nat,
        key_path@,
        plan@,
    ));
    args
}

/// The arguments of tmt that list the plans.
pub fn discovery_argv(context: &Vec<String>) -> (r: Vec<String>)
    ensures
        texts(r@) == texts(context@) + seq!["plan"@, "ls"@, "--filter"@, "enabled:true"@],
{
    let mut args = no_texts();
    push_texts(&mut args, context);
    push_text(&mut args, "plan");
    push_text(&mut args, "ls");
    push_text(&mut args, "--filter");
    push_text(&mut args, "enabled:true");
    assert(texts(args@) =~= texts(context@) + seq![
        "plan"@,
        "ls"@,
        "--filter"@,
        "enabled:true"@,
    ]);
    args
}

/// The log argument of a machine, with the directory it goes to.
pub fn log_argv(supported: bool, base: &str, vm_name: &str) -> (r: Vec<String>)
    ensures
        texts(r@) == log_args(supported, base@, vm_name@),
{
    let mut args = no_texts();
    if supported {
        let dir = join_path(base, vm_name);
        let arg = concat2("--log-dir=journal,console=", dir.as_str());
        push_text(&mut args, arg.as_str());
    }
    assert(texts(args@) =~= log_args(supported, base@, vm_name@));
    args
}

// ---------------------------------------------------------------------------
// Laws of the command lines
// ---------------------------------------------------------------------------

/// The context holds everything of the user, in its order and in front, and what is known of the
/// image and of how it boots, each under its own name.
pub proof fn law_context(
    user: Seq<Seq<char>>,
    distro: Seq<char>,
    variant_id: Seq<char>,
    boot_type: BootType,
    seal_state: Option<SealState>,
)
    ensures
        ({
            let args = context_args(user, distro, variant_id, boot_type, seal_state);
            let n = user.len() as int;
            &&& args.len() == n + 5
            &&& forall|i: int| 0 <= i < n ==> #[trigger] args[i] == "--context="@ + user[i]
            &&& args[n] == "--context=running_env=image_mode"@
            &&& args[n + 1] == "--context=distro="@ + distro
            &&& args[n + 2] == "--context=VARIANT_ID="@ + variant_id
            &&& boot_type == BootType::Bls ==> args[n + 3] == "--context=boot_type="@ + "bls"@
            &&& boot_type == BootType::Uki ==> args[n + 3] == "--context=boot_type="@ + "uki"@
            &&& seal_state is None ==> args[n + 4] == "--context=seal_state="@ + "unspecified"@
            &&& seal_state == Some(SealState::Sealed) ==> args[n + 4] == "--context=seal_state="@
                + "sealed"@
            &&& seal_state == Some(SealState::Unsealed) ==> args[n + 4] == "--context=seal_state="@
                + "unsealed"@
        }),
{
}

/// A machine gets the storage of the host exactly if its plan asks for it, it was not disabled and
/// the distribution supports it; only then do its tests see the images, each under its own name.
pub proof fn law_bind_storage(
    wanted: bool,
    supported: bool,
    skip: bool,
    upgrade: Option<Seq<char>>,
    bridge: Option<Seq<char>>,
)
    ensures
        bind_storage(wanted, supported, skip) == BindStorage::Use <==> wanted && supported && !skip,
        bind_storage(wanted, supported, skip) == BindStorage::NotWanted <==> !wanted,
        bind_storage(wanted, supported, skip) == BindStorage::Disabled <==> wanted && skip,
        ({
            let vars = plan_env(bind_storage(wanted, supported, skip), upgrade, bridge);
            &&& !(wanted && supported && !skip) ==> vars.len() == 0
            &&& wanted && supported && !skip ==> {
                &&& upgrade matches Some(image) ==> vars[0] == "BOOTC_upgrade_image="@ + image
                &&& bridge matches Some(image) ==> vars.last() == "BOOTC_bridge_image="@ + image
                &&& vars.len() == (if upgrade is Some {
                    1int
                } else {
                    0
                }) + (if bridge is Some {
                    1int
                } else {
                    0
                })
            }
        }),
{
    reveal_strlit("=");
    reveal_strlit("BOOTC_upgrade_image");
    reveal_strlit("BOOTC_upgrade_image=");
    reveal_strlit("BOOTC_bridge_image");
    reveal_strlit("BOOTC_bridge_image=");
    if upgrade is Some {
        assert("BOOTC_upgrade_image"@ + "="@ + upgrade->0 =~= "BOOTC_upgrade_image="@
            + upgrade->0);
    }
    if bridge is Some {
        assert("BOOTC_bridge_image"@ + "="@ + bridge->0 =~= "BOOTC_bridge_image="@ + bridge->0);
    }
}

/// The options of a machine hold all install arguments, in their order and last; the storage of the
/// host is bound exactly if it is used, and `xfs` is asked for exactly on Fedora CoreOS.
pub proof fn law_plan_options(
    bind: BindStorage,
    distro: Seq<char>,
    variant_id: Seq<char>,
    install: Seq<Seq<char>>,
)
    ensures
        ({
            let opts = plan_opts(bind, distro, variant_id, install);
            let binds = bind == BindStorage::Use;
            let coreos = variant_id == "coreos"@ && "fedora"@.is_prefix_of(distro);
            let head: int = (if binds {
                1int
            } else {
                0
            }) + (if coreos {
                1int
            } else {
                0
            });
            &&& opts.len() == head + install.len()
            &&& opts.skip(head) == install
            &&& binds ==> opts[0] == "--bind-storage-ro"@
            &&& coreos ==> opts[head - 1] == "--filesystem=xfs"@
        }),
{
    let opts = plan_opts(bind, distro, variant_id, install);
    assert(opts.skip(opts.len() - install.len()) =~= install);
}

/// Logs go where the command line says, else where the environment says, else to `/var/tmp/tmt`; a
/// machine's logs go below that, by its name.
pub proof fn law_logs(dir: Seq<char>, env: Option<Seq<char>>, vm_name: Seq<char>)
    requires
        dir.len() > 0,
        dir.last() != '/',
        vm_name.len() > 0,
        vm_name[0] != '/',
    ensures
        log_dir(Some(dir), env) == dir,
        log_dir(None, Some(dir)) == dir,
        log_dir(None, Some(seq![])) == "/var/tmp/tmt"@,
        log_dir(None, None) == "/var/tmp/tmt"@,
        log_args(false, dir, vm_name) == Seq::<Seq<char>>::empty(),
        log_args(true, dir, vm_name) == seq![
            "--log-dir=journal,console="@ + (dir + seq!['/'] + vm_name),
        ],
{
    law_joined_path(dir, vm_name);
    assert(dir.push('/') + vm_name =~= dir + seq!['/'] + vm_name);
    assert(log_args(false, dir, vm_name) =~= Seq::<Seq<char>>::empty());
}

/// A machine is launched by its name, detached, with the label of the tests and with all of its
/// firmware arguments, options and log arguments; the image is the last argument. It is removed by
/// its name, whether it runs or not.
pub proof fn law_machine_arguments(
    uri: Option<Seq<char>>,
    vm_name: Seq<char>,
    firmware: Seq<Seq<char>>,
    opts: Seq<Seq<char>>,
    logs: Seq<Seq<char>>,
    image: Seq<char>,
)
    ensures
        ({
            let args = launch_args(uri, vm_name, firmware, opts, logs, image);
            let k: int = if uri is Some {
                4
            } else {
                2
            };
            let f = firmware.len() as int;
            let o = opts.len() as int;
            let l = logs.len() as int;
            &&& args[0] == "libvirt"@ && args[k - 1] == "run"@
            &&& uri matches Some(u) ==> args[1] == "--connect"@ && args[2] == u
            &&& args[k] == "--name"@ && args[k + 1] == vm_name && args[k + 2] == "--detach"@
            &&& args.subrange(k + 3, k + 3 + f) == firmware
            &&& args[k + 3 + f] == "--label=bootc.test=1"@
            &&& args.subrange(k + 4 + f, k + 4 + f + o) == opts
            &&& args.subrange(k + 4 + f + o, k + 4 + f + o + l) == logs
            &&& args.len() == k + 5 + f + o + l
            &&& args.last() == image
        }),
        remove_args(uri, vm_name).last() == vm_name,
        remove_args(None, vm_name) == seq!["libvirt"@, "rm"@, "--stop"@, "--force"@, vm_name],
        uri matches Some(u) ==> remove_args(uri, vm_name) == seq![
            "libvirt"@,
            "--connect"@,
            u,
            "rm"@,
            "--stop"@,
            "--force"@,
            vm_name,
        ],
{
    let args = launch_args(uri, vm_name, firmware, opts, logs, image);
    let k: int = if uri is Some {
        4
    } else {
        2
    };
    let f = firmware.len() as int;
    let o = opts.len() as int;
    let l = logs.len() as int;
    assert(args.subrange(k + 3, k + 3 + f) =~= firmware);
    assert(args.subrange(k + 4 + f, k + 4 + f + o) =~= opts);
    assert(args.subrange(k + 4 + f + o, k + 4 + f + o + l) =~= logs);
    assert(remove_args(None, vm_name) =~= seq![
        "libvirt"@,
        "rm"@,
        "--stop"@,
        "--force"@,
        vm_name,
    ]);
    if uri is Some {
        assert(remove_args(uri, vm_name) =~= seq![
            "libvirt"@,
            "--connect"@,
            uri->0,
            "rm"@,
            "--stop"@,
            "--force"@,
            vm_name,
        ]);
    }
}

/// Whether every variable is handed on, in its place, behind an option of its own.
pub open spec fn hands_on(args: Seq<Seq<char>>, vars: Seq<Seq<char>>) -> bool {
    args.len() == 2 * vars.len() && forall|k: int|
        0 <= k < args.len() ==> #[trigger] args[k] == if k % 2 == 0 {
            "--environment"@
        } else {
            vars[k / 2]
        }
}

/// Every variable is handed on.
proof fn lemma_environment(vars: Seq<Seq<char>>)
    ensures
        hands_on(environment(vars), vars),
    decreases vars.len(),
{
    if vars.len() > 0 {
        let head = vars.drop_last();
        lemma_environment(head);
        let args = environment(vars);
        let pair = seq!["--environment"@, vars.last()];
        assert(args == environment(head) + pair);
        assert(args.len() == 2 * vars.len());
        assert forall|k: int| 0 <= k < args.len() implies #[trigger] args[k] == if k % 2 == 0 {
            "--environment"@
        } else {
            vars[k / 2]
        } by {
            if k < environment(head).len() {
                assert(args[k] == environment(head)[k]);
            }
        }
    } else {
        assert(environment(vars).len() == 0);
    }
}

/// A test sees the backend, and all variables of the user and of its plan, behind those that hold for
/// every test; each is handed to tmt behind an option of its own.
pub proof fn law_test_environment(composefs: bool, user: Seq<Seq<char>>, plan: Seq<Seq<char>>)
    ensures
        ({
            let vars = test_vars(composefs, user, plan);
            &&& vars.len() == 3 + user.len() + plan.len()
            &&& vars[0] == "TMT_SCRIPTS_DIR=/var/lib/tmt/scripts"@
            &&& vars[1] == "BCVK_EXPORT=1"@
            &&& composefs ==> vars[2] == "BOOTC_variant=composefs"@
            &&& !composefs ==> vars[2] == "BOOTC_variant=ostree"@
            &&& vars.subrange(3, 3 + user.len() as int) == user
            &&& vars.skip(3 + user.len() as int) == plan
            &&& hands_on(environment(vars), vars)
        }),
{
    let vars = test_vars(composefs, user, plan);
    assert(vars.subrange(3, 3 + user.len() as int) =~= user);
    assert(vars.skip(3 + user.len() as int) =~= plan);
    lemma_environment(vars);
}

/// tmt runs all steps of one plan, which is the last argument, on the machine behind the port, with
/// its key; the context comes before the command, the variables behind it. Reboots have a command of
/// their own exactly where one is given, and that is allowed exactly for a second disk.
pub proof fn law_tmt_arguments(
    fresh: bool,
    context: Seq<Seq<char>>,
    run_id: Seq<char>,
    vars: Seq<Seq<char>>,
    soft_reboot: Option<Seq<char>>,
    port: nat,
    key_path: Seq<char>,
    plan: Seq<char>,
)
    ensures
        ({
            let args = test_args(fresh, context, run_id, vars, soft_reboot, port, key_path, plan);
            let u: int = if fresh {
                1
            } else {
                0
            };
            let c = u + context.len();
            let e = c + 4 + 2 * vars.len();
            let s: int = if soft_reboot is Some {
                1
            } else {
                0
            };
            let n = args.len() as int;
            &&& n == e + 4 + s + 7
            &&& fresh ==> args[0]
                == "--allow-unsafe-behavior=provision/connect.reboot-commands"@
            &&& args.subrange(u, c) == context
            &&& args[c] == "run"@ && args[c + 1] == "--id"@ && args[c + 2] == run_id && args[c + 3]
                == "--all"@
            &&& args.subrange(c + 4, e) == environment(vars)
            &&& args[e] == "provision"@ && args[e + 1] == "--how=connect"@ && args[e + 2]
                == "--guest=localhost"@ && args[e + 3] == "--user=root"@
            &&& soft_reboot matches Some(command) ==> args[e + 4] == "--soft-reboot="@ + command
            &&& args[n - 7] == "--port"@ && args[n - 6] == decimal(port)
            &&& args[n - 5] == "--key"@ && args[n - 4] == key_path
            &&& args[n - 3] == "plan"@ && args[n - 2] == "--name"@ && args[n - 1] == plan
        }),
{
    let args = test_args(fresh, context, run_id, vars, soft_reboot, port, key_path, plan);
    lemma_environment(vars);
    let u: int = if fresh {
        1
    } else {
        0
    };
    let c = u + context.len();
    let e = c + 4 + 2 * vars.len();
    assert(args.subrange(u, c) =~= context);
    assert(args.subrange(c + 4, e) =~= environment(vars));
}

/// The user is told when a plan does not get the storage it asks for, and why; else nothing is told.
pub proof fn law_bind_storage_notes(distro: Seq<char>)
    ensures
        BindStorage::Use.note_text(distro) is None,
        BindStorage::NotWanted.note_text(distro) is None,
        BindStorage::Disabled.note_text(distro) == Some(
            "Note: Test requests bind storage but --skip-bind-storage was set; running without host container-storage mount"@,
        ),
        BindStorage::Unsupported.note_text(distro) == Some(
            "Note: Test wants bind storage but skipping on "@ + distro
                + " (missing systemd.extra-unit.* support)"@,
        ),
{
}

/// The arguments of the smaller commands: how plans are listed, a machine is described and the help is
/// shown, and what allows reboots.
pub proof fn law_small_commands(
    context: &Vec<String>,
    listed: Vec<String>,
    uri: Option<&str>,
    vm_name: &str,
    described: Vec<String>,
    help: Vec<String>,
    fresh: bool,
    allowed: Vec<String>,
)
    requires
        call_ensures(discovery_argv, (context,), listed),
        call_ensures(inspect_argv, (uri, vm_name), described),
        call_ensures(help_argv, (uri,), help),
        call_ensures(tmt_unsafe_behavior_args, (fresh,), allowed),
    ensures
        texts(listed@) == texts(context@) + seq!["plan"@, "ls"@, "--filter"@, "enabled:true"@],
        texts(described@).len() >= 4,
        texts(described@)[texts(described@).len() - 3] == "inspect"@,
        texts(described@)[texts(described@).len() - 2] == vm_name@,
        texts(described@).last() == "--format=json"@,
        texts(help@).last() == "--help"@,
        texts(help@)[texts(help@).len() - 2] == "run"@,
        uri matches Some(u) ==> texts(described@)[1] == "--connect"@ && texts(described@)[2] == u@
            && texts(help@)[2] == u@,
        fresh ==> texts(allowed@) == seq![
            "--allow-unsafe-behavior=provision/connect.reboot-commands"@,
        ],
        !fresh ==> allowed@.len() == 0,
{
    assert(texts(allowed@).len() == allowed@.len());
}

} // verus!
