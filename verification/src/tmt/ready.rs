//! Waiting for a test machine.

use vstd::prelude::*;

use crate::json::{json_as_str, json_as_u64, json_get, json_parsed, parse_json, Json};
use crate::text::{
    concat2, concat3, decimal, decimal_of, is_blank, is_printable_ascii, law_trim, no_texts,
    opt_str, opt_text, push_text, same, texts, trim, trimmed,
};

verus! {

/// How often a machine is asked whether it is ready, a second apart.
pub const VM_READY_TIMEOUT_SECS: u64 = 60;

/// How often a connection over SSH is tried.
pub const SSH_CONNECTIVITY_MAX_ATTEMPTS: u32 = 60;

/// The seconds between two tries.
pub const SSH_CONNECTIVITY_RETRY_DELAY_SECS: u64 = 3;

/// How to reach a machine.
#[derive(Debug)]
pub struct VmAccess {
    pub ssh_port: u16,
    pub ssh_key: String,
}

/// How to reach a machine, from the port and the key that its description holds. The
/// port is cut down to 16 bits.
pub open spec fn access(port: Option<u64>, key: Option<Seq<char>>) -> Option<(int, Seq<char>)> {
    match (port, key) {
        (Some(p), Some(k)) => Some((p as int % 65536, k)),
        _ => None,
    }
}

/// What a machine's access is, in plain terms.
pub open spec fn access_view(r: Option<VmAccess>) -> Option<(int, Seq<char>)> {
    match r {
        Some(a) => Some((a.ssh_port as int, a.ssh_key@)),
        None => None,
    }
}

/// How to reach a machine, from the port and the key that its description holds.
pub fn vm_access(port: Option<u64>, key: Option<&str>) -> (r: Option<VmAccess>)
    ensures
        access_view(r) == access(port, opt_str(key)),
{
    match (port, key) {
        (Some(p), Some(k)) => {
            let ssh_port = #[verifier::truncate] (p as u16);
            assert(ssh_port as u64 == p % 65536) by (bit_vector)
                requires
                    ssh_port == p as u16,
            ;
            Some(VmAccess { ssh_port, ssh_key: k.to_string() })
        },
        _ => None,
    }
}

/// The port that a description holds.
pub open spec fn described_port(doc: Json) -> Option<u64> {
    match doc.member("ssh_port"@) {
        Some(v) => v.as_u64(),
        None => None,
    }
}

/// The key that a description holds.
pub open spec fn described_key(doc: Json) -> Option<Seq<char>> {
    match doc.member("ssh_private_key"@) {
        Some(v) => v.as_text(),
        None => None,
    }
}

/// How to reach a machine, by the description that `bcvk libvirt inspect` prints.
pub open spec fn inspected(output: Seq<char>) -> Option<(int, Seq<char>)> {
    match json_parsed(output) {
        Some(doc) => access(described_port(doc), described_key(doc)),
        None => None,
    }
}

/// How to reach a machine, by its description; `None` where it is not ready.
pub fn inspect_vm(output: &str) -> (r: Option<VmAccess>)
    ensures
        access_view(r) == inspected(output@),
{
    let doc = match parse_json(output) {
        Ok(doc) => doc,
        Err(_) => return None,
    };
    let port = match json_get(&doc, "ssh_port") {
        Some(v) => json_as_u64(v),
        None => None,
    };
    let key = match json_get(&doc, "ssh_private_key") {
        Some(v) => json_as_str(v),
        None => None,
    };
    vm_access(port, key)
}

/// What an attempt to find a machine ready comes to.
#[derive(Debug)]
pub enum ReadyStep {
    Ready(VmAccess),
    /// Wait a second and ask again.
    Again,
    TimedOut,
}

/// What an attempt to find a machine ready comes to. Attempts count from one;
/// `output` is the description, `None` where there was none.
pub fn ready_step(attempt: u64, output: Option<&str>) -> (r: ReadyStep)
    ensures
        match (match opt_str(output) {
            Some(text) => inspected(text),
            None => None,
        }) {
            Some(found) => r matches ReadyStep::Ready(a) && (a.ssh_port as int, a.ssh_key@)
                == found,
            None => if attempt < VM_READY_TIMEOUT_SECS {
                r is Again
            } else {
                r is TimedOut
            },
        },
{
    let found = match output {
        Some(text) => inspect_vm(text),
        None => None,
    };
    match found {
        Some(a) => ReadyStep::Ready(a),
        None => if attempt < VM_READY_TIMEOUT_SECS {
            ReadyStep::Again
        } else {
            ReadyStep::TimedOut
        },
    }
}

/// The error of a machine that does not become ready.
pub fn not_ready_message(vm_name: &str) -> (r: String)
    ensures
        r@ == "VM "@ + vm_name@ + " did not become ready within "@ + decimal(60) + " seconds"@,
{
    let head = concat3("VM ", vm_name, " did not become ready within ");
    let secs = decimal_of(VM_READY_TIMEOUT_SECS);
    concat3(head.as_str(), secs.as_str(), " seconds")
}

/// What an attempt to reach a machine comes to.
#[derive(Debug, Clone, Copy, PartialEq, Eq, Structural)]
pub enum SshStep {
    Connected,
    /// Wait and try again.
    Again,
    Failed,
}

/// Whether the answer of a machine is that of a login as root.
pub open spec fn is_root(output: Option<Seq<char>>) -> bool {
    match output {
        Some(text) => trim(text) == "root"@,
        None => false,
    }
}

/// What an attempt to reach a machine comes to. Attempts count from one; `output` is
/// what the command on the machine printed, `None` where it failed.
pub fn ssh_step(attempt: u32, output: Option<&str>) -> (r: SshStep)
    ensures
        r == (if is_root(opt_str(output)) {
            SshStep::Connected
        } else if attempt < SSH_CONNECTIVITY_MAX_ATTEMPTS {
            SshStep::Again
        } else {
            SshStep::Failed
        }),
{
    let connected = match output {
        Some(text) => {
            let user = trimmed(text);
            same(user.as_str(), "root")
        },
        None => false,
    };
    if connected {
        SshStep::Connected
    } else if attempt < SSH_CONNECTIVITY_MAX_ATTEMPTS {
        SshStep::Again
    } else {
        SshStep::Failed
    }
}

/// What is shown after an attempt that failed: every tenth says how far it is.
pub fn ssh_progress(attempt: u32) -> (r: Option<String>)
    ensures
        opt_text(r) == (if attempt % 10 == 0 {
            Some(
                "Waiting for SSH... attempt "@ + decimal(attempt as nat) + "/"@ + decimal(60),
            )
        } else {
            None
        }),
{
    if attempt % 10 == 0 {
        let n = decimal_of(attempt as u64);
        let max = decimal_of(SSH_CONNECTIVITY_MAX_ATTEMPTS as u64);
        let head = concat3("Waiting for SSH... attempt ", n.as_str(), "/");
        Some(concat2(head.as_str(), max.as_str()))
    } else {
        None
    }
}

/// The error of a machine that cannot be reached.
pub fn ssh_failed_message() -> (r: String)
    ensures
        r@ == "SSH connectivity check failed after "@ + decimal(60) + " attempts"@,
{
    let max = decimal_of(SSH_CONNECTIVITY_MAX_ATTEMPTS as u64);
    concat3("SSH connectivity check failed after ", max.as_str(), " attempts")
}

/// The arguments of `ssh` that log in as root and say so. Keys other than the given one
/// are not offered.
pub open spec fn ssh_args(key_path: Seq<char>, port: nat) -> Seq<Seq<char>> {
    seq![
        "-i"@,
        key_path,
        "-p"@,
        decimal(port),
        "-o"@,
        "StrictHostKeyChecking=no"@,
        "-o"@,
        "UserKnownHostsFile=/dev/null"@,
        "-o"@,
        "ConnectTimeout=5"@,
        "-o"@,
        "IdentitiesOnly=yes"@,
        "root@localhost"@,
        "export TEST=value; whoami"@,
    ]
}

/// The arguments of `ssh` that log in as root and say so.
pub fn ssh_argv(key_path: &str, port: u16) -> (r: Vec<String>)
    ensures
        texts(r@) == ssh_args(key_path@, port as nat),
{
    let mut args = no_texts();
    let port_text = decimal_of(port as u64);
    push_text(&mut args, "-i");
    push_text(&mut args, key_path);
    push_text(&mut args, "-p");
    push_text(&mut args, port_text.as_str());
    push_text(&mut args, "-o");
    push_text(&mut args, "StrictHostKeyChecking=no");
    push_text(&mut args, "-o");
    push_text(&mut args, "UserKnownHostsFile=/dev/null");
    push_text(&mut args, "-o");
    push_text(&mut args, "ConnectTimeout=5");
    push_text(&mut args, "-o");
    push_text(&mut args, "IdentitiesOnly=yes");
    push_text(&mut args, "root@localhost");
    push_text(&mut args, "export TEST=value; whoami");
    assert(texts(args@) =~= ssh_args(key_path@, port as nat));
    args
}

// ---------------------------------------------------------------------------
// Laws
// ---------------------------------------------------------------------------

/// A machine that never answers is given up after exactly the last attempt.
pub proof fn law_waiting_ends(attempt: u64, step: ReadyStep)
    requires
        1 <= attempt <= VM_READY_TIMEOUT_SECS,
        call_ensures(ready_step, (attempt, None::<&str>), step),
    ensures
        step is TimedOut <==> attempt == VM_READY_TIMEOUT_SECS,
        step is Again <==> attempt < VM_READY_TIMEOUT_SECS,
{
}

/// Reading a port that fits 16 bits keeps it.
pub proof fn law_small_ports_are_kept(port: u64, key: Seq<char>)
    requires
        port < 65536,
    ensures
        access(Some(port), Some(key)) == Some((port as int, key)),
{
}

/// A machine that does not answer is asked sixty times, and reached for sixty times, three seconds
/// apart.
pub proof fn law_patience(attempt: u64, step: ReadyStep, tries: u32, ssh: SshStep)
    requires
        call_ensures(ready_step, (attempt, None::<&str>), step),
        call_ensures(ssh_step, (tries, None::<&str>), ssh),
    ensures
        step is Again <==> attempt < 60,
        step is TimedOut <==> attempt >= 60,
        ssh == SshStep::Again <==> tries < 60,
        ssh == SshStep::Failed <==> tries >= 60,
        SSH_CONNECTIVITY_RETRY_DELAY_SECS == 3,
{
}

/// A machine is reached when it says `root`, with or without white space around it, at whatever
/// attempt, and on no other answer.
pub proof fn law_root_answers(
    before: Seq<char>,
    answer: Seq<char>,
    after: Seq<char>,
    text: &str,
    attempt: u32,
    r: SshStep,
)
    requires
        is_blank(before),
        is_blank(after),
        answer.len() > 0,
        is_printable_ascii(answer[0]),
        is_printable_ascii(answer.last()),
        text@ == before + answer + after,
        call_ensures(ssh_step, (attempt, Some(text)), r),
    ensures
        r == SshStep::Connected <==> answer == "root"@,
{
    law_trim(before, answer, after);
}

/// A machine is ready when its description holds a port and a key under their names, and then it is
/// reached by these; a description without one of them, or none, does not make it ready.
pub proof fn law_description_tells_access(output: Seq<char>, doc: Json)
    requires
        json_parsed(output) == Some(doc),
    ensures
        inspected(output) is Some <==> {
            &&& doc.member("ssh_port"@) is Some
            &&& doc.member("ssh_port"@)->0.as_u64() is Some
            &&& doc.member("ssh_private_key"@) is Some
            &&& doc.member("ssh_private_key"@)->0.as_text() is Some
        },
        inspected(output) matches Some((port, key)) ==> {
            &&& Some(key) == doc.member("ssh_private_key"@)->0.as_text()
            &&& doc.member("ssh_port"@)->0.as_u64()->0 < 65536 ==> port == doc.member(
                "ssh_port"@,
            )->0.as_u64()->0
        },
{
}

/// The key and the port are handed to `ssh` behind their options, no other key is offered, and the
/// last arguments are the login and the command.
pub proof fn law_ssh_options(key_path: Seq<char>, port: nat)
    ensures
        ({
            let args = ssh_args(key_path, port);
            let n = args.len() as int;
            &&& args[0] == "-i"@ && args[1] == key_path
            &&& args[2] == "-p"@ && args[3] == decimal(port)
            &&& args[n - 2] == "root@localhost"@ && args[n - 1] == "export TEST=value; whoami"@
            &&& exists|i: int|
                0 <= i < n - 3 && #[trigger] args[i] == "-o"@ && args[i + 1]
                    == "IdentitiesOnly=yes"@
            &&& exists|i: int|
                0 <= i < n - 3 && #[trigger] args[i] == "-o"@ && args[i + 1]
                    == "StrictHostKeyChecking=no"@
            &&& exists|i: int|
                0 <= i < n - 3 && #[trigger] args[i] == "-o"@ && args[i + 1]
                    == "UserKnownHostsFile=/dev/null"@
            &&& exists|i: int|
                0 <= i < n - 3 && #[trigger] args[i] == "-o"@ && args[i + 1]
                    == "ConnectTimeout=5"@
        }),
{
    let args = ssh_args(key_path, port);
    assert(args[4] == "-o"@ && args[5] == "StrictHostKeyChecking=no"@);
    assert(args[6] == "-o"@ && args[7] == "UserKnownHostsFile=/dev/null"@);
    assert(args[8] == "-o"@ && args[9] == "ConnectTimeout=5"@);
    assert(args[10] == "-o"@ && args[11] == "IdentitiesOnly=yes"@);
}

} // verus!
