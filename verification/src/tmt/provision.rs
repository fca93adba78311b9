//! Machines for use by hand, and what is shown of machines that stay.

use vstd::prelude::*;

use crate::bcvk::{BcvkInstallOpts, InstallEnv, SealState};
use crate::paths::{join_path, joined_path, law_joined_path};
use crate::text::{
    concat2, concat3, decimal, decimal_of, no_texts, opt_str, opt_text, push_text, texts,
};
use crate::tmt::commands::{launch_args, launch_argv};
use crate::tmt::libvirt::{bcvk_libvirt_args, libvirt_args};
use crate::tmt::names::{generate_random_suffix, is_suffix};

verus! {

/// The line between blocks of output.
pub const RULE: &'static str = "========================================";

/// The name of a machine that gets none from the user.
pub open spec fn manual_name(suffix: Seq<char>) -> Seq<char> {
    "bootc-tmt-manual-"@ + suffix
}

/// The name of a machine that gets none from the user, with a suffix.
pub fn manual_vm_name(suffix: &str) -> (r: String)
    ensures
        r@ == manual_name(suffix@),
{
    concat2("bootc-tmt-manual-", suffix)
}

/// The name of a machine: that of the user, else one with a random suffix.
pub fn provision_vm_name(given: Option<&str>) -> (r: String)
    ensures
        match opt_str(given) {
            Some(name) => r@ == name,
            None => exists|suffix: Seq<char>| is_suffix(suffix) && r@ == #[trigger] manual_name(
                suffix,
            ),
        },
{
    match given {
        Some(name) => name.to_string(),
        None => {
            let suffix = generate_random_suffix();
            manual_vm_name(suffix.as_str())
        },
    }
}

/// The options of a machine: those of the environment, but for the seal state, which is
/// that of the image.
pub fn provision_opts(env: &InstallEnv, sealed: bool) -> (r: BcvkInstallOpts)
    ensures
        r.seal_state == (if sealed {
            Some(SealState::Sealed)
        } else {
            None
        }),
        r.composefs_backend == (opt_text(env.variant) == Some("composefs"@)),
        r.bootloader == (match env.bootloader {
            Some(v) => crate::bcvk::Bootloader::named(v@),
            None => None,
        }),
        opt_text(r.filesystem) == opt_text(env.filesystem),
        texts(r.kargs@) == Seq::<Seq<char>>::empty(),
        opt_text(r.secure_boot_keys) == (match env.secureboot_dir {
            Some(v) => if v@.len() > 0 {
                Some(v@)
            } else {
                None
            },
            None => None,
        }),
{
    let mut opts = BcvkInstallOpts::from_env(env);
    opts.seal_state = if sealed {
        Some(SealState::Sealed)
    } else {
        None
    };
    opts
}

/// The arguments of `bcvk` that launch a machine for use by hand: those of a test machine
/// without install options and logs.
pub fn provision_argv(vm_name: &str, firmware: &Vec<String>, image: &str) -> (r: Vec<String>)
    ensures
        texts(r@) == launch_args(None, vm_name@, texts(firmware@), seq![], seq![], image@),
{
    let none = no_texts();
    launch_argv(None, vm_name, firmware, &none, &none, image)
}

/// Where the key of a machine is kept.
pub open spec fn key_path(vm_name: Seq<char>) -> Seq<char> {
    joined_path("target"@, vm_name + ".ssh-key"@)
}

/// Where the key of a machine is kept.
pub fn ssh_key_path(vm_name: &str) -> (r: String)
    ensures
        r@ == key_path(vm_name@),
{
    let file = concat2(vm_name, ".ssh-key");
    join_path("target", file.as_str())
}

/// The command line that logs in to a machine.
pub open spec fn login_line(key: Seq<char>, port: nat) -> Seq<char> {
    "  ssh -i "@ + key + " -p "@ + decimal(port) + " -o IdentitiesOnly=yes root@localhost"@
}

/// The command line that logs in to a machine.
fn login_text(key: &str, port: u16) -> (r: String)
    ensures
        r@ == login_line(key@, port as nat),
{
    let head = concat3("  ssh -i ", key, " -p ");
    let p = decimal_of(port as u64);
    concat3(head.as_str(), p.as_str(), " -o IdentitiesOnly=yes root@localhost")
}

/// The command line that removes a machine.
pub open spec fn removal_line(connect_uri: Option<Seq<char>>, vm_name: Seq<char>) -> Seq<char> {
    match connect_uri {
        Some(uri) => "  bcvk libvirt --connect "@ + uri + " rm --stop --force "@ + vm_name,
        None => "  bcvk libvirt rm --stop --force "@ + vm_name,
    }
}

/// The command line that removes a machine.
fn removal_text(connect_uri: Option<&str>, vm_name: &str) -> (r: String)
    ensures
        r@ == removal_line(opt_str(connect_uri), vm_name@),
{
    match connect_uri {
        Some(uri) => {
            let head = concat3("  bcvk libvirt --connect ", uri, " rm --stop --force ");
            concat2(head.as_str(), vm_name)
        },
        None => concat2("  bcvk libvirt rm --stop --force ", vm_name),
    }
}

/// What is shown of a machine: its name, port and key.
pub open spec fn vm_lines(vm_name: Seq<char>, port: nat, key: Seq<char>) -> Seq<Seq<char>> {
    seq!["VM name: "@ + vm_name, "SSH port: "@ + decimal(port), "SSH key: "@ + key]
}

/// What is shown of a machine that stays for debugging.
pub open spec fn preserved(
    vm_name: Seq<char>,
    port: nat,
    key: Seq<char>,
    connect_uri: Option<Seq<char>>,
) -> Seq<Seq<char>> {
    seq![""@, RULE@, "VM preserved for debugging:"@, RULE@] + vm_lines(vm_name, port, key) + seq![
        ""@,
        "To connect via SSH:"@,
        login_line(key, port),
        ""@,
        "To cleanup:"@,
        removal_line(connect_uri, vm_name),
        RULE@,
        ""@,
    ]
}

/// Shows a machine: its name, port and key.
fn push_vm_lines(out: &mut Vec<String>, vm_name: &str, port: u16, key: &str)
    ensures
        texts(final(out)@) == texts(old(out)@) + vm_lines(vm_name@, port as nat, key@),
{
    let name_line = concat2("VM name: ", vm_name);
    let p = decimal_of(port as u64);
    let port_line = concat2("SSH port: ", p.as_str());
    let key_line = concat2("SSH key: ", key);
    push_text(out, name_line.as_str());
    push_text(out, port_line.as_str());
    push_text(out, key_line.as_str());
    assert(texts(out@) =~= texts(old(out)@) + vm_lines(vm_name@, port as nat, key@));
}

/// What is shown of a machine that stays for debugging.
pub fn preserved_lines(vm_name: &str, port: u16, key: &str, connect_uri: Option<&str>) -> (r: Vec<
    String,
>)
    ensures
        texts(r@) == preserved(vm_name@, port as nat, key@, opt_str(connect_uri)),
{
    let mut out = no_texts();
    push_text(&mut out, "");
    push_text(&mut out, RULE);
    push_text(&mut out, "VM preserved for debugging:");
    push_text(&mut out, RULE);
    push_vm_lines(&mut out, vm_name, port, key);
    push_text(&mut out, "");
    push_text(&mut out, "To connect via SSH:");
    let login = login_text(key, port);
    push_text(&mut out, login.as_str());
    push_text(&mut out, "");
    push_text(&mut out, "To cleanup:");
    let removal = removal_text(connect_uri, vm_name);
    push_text(&mut out, removal.as_str());
    push_text(&mut out, RULE);
    push_text(&mut out, "");
    assert(texts(out@) =~= preserved(vm_name@, port as nat, key@, opt_str(connect_uri)));
    out
}

/// What is shown of a machine that was made for use by hand.
pub open spec fn provisioned(vm_name: Seq<char>, port: nat, key: Seq<char>) -> Seq<Seq<char>> {
    seq![""@, RULE@, "VM provisioned successfully!"@, RULE@] + vm_lines(vm_name, port, key) + seq![
        ""@,
        "To use with tmt:"@,
        "  tmt run --all provision --how connect \\"@,
        "    --guest localhost --port "@ + decimal(port) + " \\"@,
        "    --user root --key "@ + key + " \\"@,
        "    plan --name <PLAN_NAME>"@,
        ""@,
        "To connect via SSH:"@,
        login_line(key, port),
        ""@,
        "To cleanup:"@,
        removal_line(None, vm_name),
        RULE@,
        ""@,
    ]
}

/// What is shown of a machine that was made for use by hand.
pub fn provisioned_lines(vm_name: &str, port: u16, key: &str) -> (r: Vec<String>)
    ensures
        texts(r@) == provisioned(vm_name@, port as nat, key@),
{
    let mut out = no_texts();
    push_text(&mut out, "");
    push_text(&mut out, RULE);
    push_text(&mut out, "VM provisioned successfully!");
    push_text(&mut out, RULE);
    push_vm_lines(&mut out, vm_name, port, key);
    push_text(&mut out, "");
    push_text(&mut out, "To use with tmt:");
    push_text(&mut out, "  tmt run --all provision --how connect \\");
    let p = decimal_of(port as u64);
    let guest = concat3("    --guest localhost --port ", p.as_str(), " \\");
    push_text(&mut out, guest.as_str());
    let user = concat3("    --user root --key ", key, " \\");
    push_text(&mut out, user.as_str());
    push_text(&mut out, "    plan --name <PLAN_NAME>");
    push_text(&mut out, "");
    push_text(&mut out, "To connect via SSH:");
    let login = login_text(key, port);
    push_text(&mut out, login.as_str());
    push_text(&mut out, "");
    push_text(&mut out, "To cleanup:");
    let removal = removal_text(None, vm_name);
    push_text(&mut out, removal.as_str());
    push_text(&mut out, RULE);
    push_text(&mut out, "");
    assert(texts(out@) =~= provisioned(vm_name@, port as nat, key@));
    out
}

// ---------------------------------------------------------------------------
// Diagnostics
// ---------------------------------------------------------------------------

/// A command that shows something of the host.
#[derive(Debug)]
pub struct Diagnostic {
    pub title: String,
    pub argv: Vec<String>,
}

/// A diagnostic, in terms of texts.
pub open spec fn diagnostic(d: Diagnostic) -> (Seq<char>, Seq<Seq<char>>) {
    (d.title@, texts(d.argv@))
}

/// The diagnostics of a list, in terms of texts.
pub open spec fn diagnostics(list: Seq<Diagnostic>) -> Seq<(Seq<char>, Seq<Seq<char>>)> {
    Seq::new(list.len(), |i: int| diagnostic(list[i]))
}

/// What is shown when a machine does not launch, mostly for lack of space on the host: the
/// file systems, the images, the machines, the logs, and the home directory where it is
/// known.
pub open spec fn infra_commands(
    log_dir: Seq<char>,
    connect_uri: Option<Seq<char>>,
    home: Option<Seq<char>>,
) -> Seq<(Seq<char>, Seq<Seq<char>>)> {
    seq![
        ("df -h"@, seq!["df"@, "-h"@]),
        ("podman images"@, seq!["podman"@, "images"@]),
        ("bcvk libvirt list"@, seq!["bcvk"@] + libvirt_args(connect_uri, "list"@)),
        ("du -sh "@ + log_dir, seq!["du"@, "-sh"@, log_dir]),
    ] + match home {
        Some(dir) => seq![
            (
                "du -h --max-depth=1 "@ + dir + " (sorted)"@,
                seq![
                    "sh"@,
                    "-c"@,
                    "du -h --max-depth=1 \"$1\" 2>/dev/null | sort -h"@,
                    "sh"@,
                    dir,
                ],
            ),
        ],
        None => seq![],
    }
}

/// Appends a diagnostic.
fn push_diagnostic(list: &mut Vec<Diagnostic>, title: String, argv: Vec<String>)
    ensures
        diagnostics(final(list)@) == diagnostics(old(list)@).push((title@, texts(argv@))),
{
    list.push(Diagnostic { title, argv });
    assert(diagnostics(list@) =~= diagnostics(old(list)@).push((title@, texts(argv@))));
}

/// What is shown when a machine does not launch.
pub fn infra_diagnostics(log_dir: &str, connect_uri: Option<&str>, home: Option<&str>) -> (r: Vec<
    Diagnostic,
>)
    ensures
        diagnostics(r@) == infra_commands(log_dir@, opt_str(connect_uri), opt_str(home)),
{
    let mut list: Vec<Diagnostic> = Vec::new();
    assert(diagnostics(list@) =~= seq![]);

    let mut df = no_texts();
    push_text(&mut df, "df");
    push_text(&mut df, "-h");
    assert(texts(df@) =~= seq!["df"@, "-h"@]);
    push_diagnostic(&mut list, "df -h".to_string(), df);

    let mut images = no_texts();
    push_text(&mut images, "podman");
    push_text(&mut images, "images");
    assert(texts(images@) =~= seq!["podman"@, "images"@]);
    push_diagnostic(&mut list, "podman images".to_string(), images);

    let mut vms = no_texts();
    push_text(&mut vms, "bcvk");
    let args = bcvk_libvirt_args(connect_uri, "list");
    crate::text::push_texts(&mut vms, &args);
    assert(texts(vms@) =~= seq!["bcvk"@] + libvirt_args(opt_str(connect_uri), "list"@));
    push_diagnostic(&mut list, "bcvk libvirt list".to_string(), vms);

    let mut logs = no_texts();
    push_text(&mut logs, "du");
    push_text(&mut logs, "-sh");
    push_text(&mut logs, log_dir);
    assert(texts(logs@) =~= seq!["du"@, "-sh"@, log_dir@]);
    push_diagnostic(&mut list, concat2("du -sh ", log_dir), logs);

    match home {
        Some(dir) => {
            let mut argv = no_texts();
            push_text(&mut argv, "sh");
            push_text(&mut argv, "-c");
            push_text(&mut argv, "du -h --max-depth=1 \"$1\" 2>/dev/null | sort -h");
            push_text(&mut argv, "sh");
            push_text(&mut argv, dir);
            assert(texts(argv@) =~= seq![
                "sh"@,
                "-c"@,
                "du -h --max-depth=1 \"$1\" 2>/dev/null | sort -h"@,
                "sh"@,
                dir@,
            ]);
            push_diagnostic(&mut list, concat3("du -h --max-depth=1 ", dir, " (sorted)"), argv);
        },
        None => {},
    }
    assert(diagnostics(list@) =~= infra_commands(log_dir@, opt_str(connect_uri), opt_str(home)));
    list
}

// ---------------------------------------------------------------------------
// Laws of what is shown
// ---------------------------------------------------------------------------

/// The key of a machine is kept in `target`, by the name of the machine.
pub proof fn law_key_path(vm_name: Seq<char>)
    requires
        vm_name.len() == 0 || vm_name[0] != '/',
    ensures
        key_path(vm_name) == "target/"@ + vm_name + ".ssh-key"@,
        manual_name(vm_name) == "bootc-tmt-manual-"@ + vm_name,
{
    reveal_strlit("target");
    reveal_strlit("target/");
    reveal_strlit(".ssh-key");
    let file = vm_name + ".ssh-key"@;
    law_joined_path("target"@, file);
    assert("target"@.last() == 't');
    assert(key_path(vm_name) =~= "target/"@ + vm_name + ".ssh-key"@);
}

/// What is shown of a machine tells its name, its port and its key, how to log in with these, and
/// how to remove it, over its own connection where it has one.
pub proof fn law_machines_are_shown(
    vm_name: Seq<char>,
    port: nat,
    key: Seq<char>,
    uri: Option<Seq<char>>,
)
    ensures
        ({
            let kept = preserved(vm_name, port, key, uri);
            let made = provisioned(vm_name, port, key);
            let login = "  ssh -i "@ + key + " -p "@ + decimal(port)
                + " -o IdentitiesOnly=yes root@localhost"@;
            let removal = "  bcvk libvirt rm --stop --force "@ + vm_name;
            &&& kept.contains("VM name: "@ + vm_name) && made.contains("VM name: "@ + vm_name)
            &&& kept.contains("SSH port: "@ + decimal(port)) && made.contains(
                "SSH port: "@ + decimal(port),
            )
            &&& kept.contains("SSH key: "@ + key) && made.contains("SSH key: "@ + key)
            &&& kept.contains(login) && made.contains(login)
            &&& made.contains(removal)
            &&& uri is None ==> kept.contains(removal)
            &&& uri matches Some(u) ==> kept.contains(
                "  bcvk libvirt --connect "@ + u + " rm --stop --force "@ + vm_name,
            )
            &&& kept.contains("VM preserved for debugging:"@)
            &&& made.contains("VM provisioned successfully!"@)
            &&& made.contains("    --guest localhost --port "@ + decimal(port) + " \\"@)
            &&& made.contains("    --user root --key "@ + key + " \\"@)
        }),
{
    let kept = preserved(vm_name, port, key, uri);
    let made = provisioned(vm_name, port, key);
    assert(kept[2] == "VM preserved for debugging:"@);
    assert(kept[4] == "VM name: "@ + vm_name);
    assert(kept[5] == "SSH port: "@ + decimal(port));
    assert(kept[6] == "SSH key: "@ + key);
    assert(kept[9] == login_line(key, port));
    assert(kept[12] == removal_line(uri, vm_name));
    assert(made[2] == "VM provisioned successfully!"@);
    assert(made[4] == "VM name: "@ + vm_name);
    assert(made[5] == "SSH port: "@ + decimal(port));
    assert(made[6] == "SSH key: "@ + key);
    assert(made[10] == "    --guest localhost --port "@ + decimal(port) + " \\"@);
    assert(made[11] == "    --user root --key "@ + key + " \\"@);
    assert(made[15] == login_line(key, port));
    assert(made[18] == removal_line(None, vm_name));
}

/// When a machine does not launch, the file systems, the images, the machines and the logs of the
/// host are shown, each by its own command, and the home directory exactly if it is known.
pub proof fn law_host_is_shown(log_dir: Seq<char>, uri: Option<Seq<char>>, home: Option<Seq<char>>)
    ensures
        ({
            let list = infra_commands(log_dir, uri, home);
            &&& list.len() == if home is Some {
                5nat
            } else {
                4nat
            }
            &&& list[0].1 == seq!["df"@, "-h"@]
            &&& list[1].1 == seq!["podman"@, "images"@]
            &&& list[2].1[0] == "bcvk"@ && list[2].1[1] == "libvirt"@ && list[2].1.last() == "list"@
            &&& list[3].1 == seq!["du"@, "-sh"@, log_dir]
            &&& home matches Some(dir) ==> list[4].1[0] == "sh"@ && list[4].1[1] == "-c"@
                && list[4].1.last() == dir
        }),
{
}

/// A machine for use by hand is made as the environment says, but for its seal, which is that of the
/// image, whatever the environment says.
pub proof fn law_provisioned_options(env: &InstallEnv, sealed: bool, r: BcvkInstallOpts)
    requires
        call_ensures(provision_opts, (env, sealed), r),
    ensures
        sealed <==> r.seal_state == Some(SealState::Sealed),
        !sealed <==> r.seal_state is None,
        r.composefs_backend <==> (env.variant matches Some(v) && v@ == "composefs"@),
        env.filesystem matches Some(v) ==> (r.filesystem matches Some(f) && f@ == v@),
        env.filesystem is None ==> r.filesystem is None,
        env.secureboot_dir is Some && env.secureboot_dir->0@.len() > 0 ==> (
        r.secure_boot_keys matches Some(d) && d@ == env.secureboot_dir->0@),
{
}

} // verus!
