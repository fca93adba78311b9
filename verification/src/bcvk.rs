//! Arguments for the `bcvk` command line.
//!
//! The flow for development VMs and the tmt test runner both turn `BOOTC_*`
//! environment variables into flags of `bcvk libvirt run`; they share this module.

use vstd::prelude::*;

use crate::text::{concat2, concat3, no_texts, opt_str, opt_text, push_text, same, texts};

verus! {

/// Default directory of the secure boot test keys.
pub const DEFAULT_SB_KEYS_DIR: &'static str = "target/test-secureboot";

/// The bootloader of an installed system.
#[derive(Debug, Clone, Copy, PartialEq, Eq, Structural)]
pub enum Bootloader {
    Grub,
    Systemd,
}

impl Bootloader {
    /// The name on the command line.
    pub open spec fn text(self) -> Seq<char> {
        match self {
            Bootloader::Grub => "grub"@,
            Bootloader::Systemd => "systemd"@,
        }
    }

    /// The name on the command line.
    pub fn as_str(self) -> (r: &'static str)
        ensures
            r@ == self.text(),
    {
        match self {
            Bootloader::Grub => "grub",
            Bootloader::Systemd => "systemd",
        }
    }

    /// The bootloader with a name, if there is one.
    pub open spec fn named(s: Seq<char>) -> Option<Bootloader> {
        if s == "grub"@ {
            Some(Bootloader::Grub)
        } else if s == "systemd"@ {
            Some(Bootloader::Systemd)
        } else {
            None
        }
    }

    /// The bootloader with a name, if there is one.
    pub fn parse(s: &str) -> (r: Option<Bootloader>)
        ensures
            r == Bootloader::named(s@),
    {
        if same(s, "grub") {
            Some(Bootloader::Grub)
        } else if same(s, "systemd") {
            Some(Bootloader::Systemd)
        } else {
            None
        }
    }
}

/// Whether an image is sealed.
#[derive(Debug, Clone, Copy, PartialEq, Eq, Structural)]
pub enum SealState {
    Sealed,
    Unsealed,
}

impl SealState {
    /// The name on the command line.
    pub open spec fn text(self) -> Seq<char> {
        match self {
            SealState::Sealed => "sealed"@,
            SealState::Unsealed => "unsealed"@,
        }
    }

    /// The name on the command line.
    pub fn as_str(self) -> (r: &'static str)
        ensures
            r@ == self.text(),
    {
        match self {
            SealState::Sealed => "sealed",
            SealState::Unsealed => "unsealed",
        }
    }

    /// The state with a name, if there is one.
    pub open spec fn named(s: Seq<char>) -> Option<SealState> {
        if s == "sealed"@ {
            Some(SealState::Sealed)
        } else if s == "unsealed"@ {
            Some(SealState::Unsealed)
        } else {
            None
        }
    }

    /// The state with a name, if there is one.
    pub fn parse(s: &str) -> (r: Option<SealState>)
        ensures
            r == SealState::named(s@),
    {
        if same(s, "sealed") {
            Some(SealState::Sealed)
        } else if same(s, "unsealed") {
            Some(SealState::Unsealed)
        } else {
            None
        }
    }
}

/// The values of the `BOOTC_*` environment variables, where they are set.
#[derive(Debug)]
pub struct InstallEnv {
    /// `BOOTC_variant`
    pub variant: Option<String>,
    /// `BOOTC_bootloader`
    pub bootloader: Option<String>,
    /// `BOOTC_filesystem`
    pub filesystem: Option<String>,
    /// `BOOTC_seal_state`
    pub seal_state: Option<String>,
    /// `BOOTC_secureboot_dir`
    pub secureboot_dir: Option<String>,
}

/// Resolved install options, ready to be turned into arguments.
#[derive(Debug)]
pub struct BcvkInstallOpts {
    pub composefs_backend: bool,
    pub bootloader: Option<Bootloader>,
    pub filesystem: Option<String>,
    pub seal_state: Option<SealState>,
    pub kargs: Vec<String>,
    pub secure_boot_keys: Option<String>,
}

/// Why there are no firmware arguments.
#[derive(Debug)]
pub enum FirmwareError {
    /// The image is sealed and the named directory of keys is missing.
    MissingKeys(String),
}

impl FirmwareError {
    /// The text of the error.
    pub open spec fn text(self) -> Seq<char> {
        match self {
            FirmwareError::MissingKeys(dir) => "Sealed image but no secure boot keys at "@ + dir@
                + ". Run 'just generate-secureboot-keys' to generate them."@,
        }
    }

    /// The text of the error.
    pub fn message(&self) -> (r: String)
        ensures
            r@ == self.text(),
    {
        match self {
            FirmwareError::MissingKeys(dir) => concat3(
                "Sealed image but no secure boot keys at ",
                dir.as_str(),
                ". Run 'just generate-secureboot-keys' to generate them.",
            ),
        }
    }
}

/// The texts, each behind a prefix.
pub open spec fn prefixed(prefix: Seq<char>, list: Seq<Seq<char>>) -> Seq<Seq<char>> {
    Seq::new(list.len(), |i: int| prefix + list[i])
}

/// Copies of the texts, each behind a prefix.
pub fn prefixed_texts(prefix: &str, list: &Vec<String>) -> (r: Vec<String>)
    ensures
        texts(r@) == prefixed(prefix@, texts(list@)),
{
    let mut out = no_texts();
    let mut i: usize = 0;
    let ghost all = prefixed(prefix@, texts(list@));
    assert(all.take(0) =~= Seq::<Seq<char>>::empty());
    while i < list.len()
        invariant
            i <= list@.len(),
            all == prefixed(prefix@, texts(list@)),
            texts(out@) == all.take(i as int),
        decreases list@.len() - i,
    {
        let item = concat2(prefix, list[i].as_str());
        push_text(&mut out, item.as_str());
        assert(all.take(i + 1) =~= all.take(i as int).push(all[i as int]));
        i = i + 1;
    }
    assert(all.take(i as int) =~= all);
    out
}

impl Default for BcvkInstallOpts {
    /// No composefs, and nothing chosen.
    fn default() -> (r: Self)
        ensures
            !r.composefs_backend,
            r.bootloader is None,
            r.filesystem is None,
            r.seal_state is None,
            r.kargs@.len() == 0,
            r.secure_boot_keys is None,
    {
        BcvkInstallOpts {
            composefs_backend: false,
            bootloader: None,
            filesystem: None,
            seal_state: None,
            kargs: Vec::new(),
            secure_boot_keys: None,
        }
    }
}

impl BcvkInstallOpts {
    /// Builds the options from `BOOTC_*` environment variables.
    ///
    /// `BOOTC_variant=composefs` turns the composefs backend on. A bootloader or a
    /// seal state by an unknown name, and an empty directory of keys, count as not
    /// set.
    pub fn from_env(env: &InstallEnv) -> (r: BcvkInstallOpts)
        ensures
            r.composefs_backend == (opt_text(env.variant) == Some("composefs"@)),
            r.bootloader == (match env.bootloader {
                Some(v) => Bootloader::named(v@),
                None => None,
            }),
            opt_text(r.filesystem) == opt_text(env.filesystem),
            r.seal_state == (match env.seal_state {
                Some(v) => SealState::named(v@),
                None => None,
            }),
            texts(r.kargs@) == Seq::<Seq<char>>::empty(),
            opt_text(r.secure_boot_keys) == (match env.secureboot_dir {
                Some(v) => if v@.len() > 0 {
                    Some(v@)
                } else {
                    None
                },
                None => None,
            }),
    {
        let composefs_backend = match &env.variant {
            Some(v) => same(v.as_str(), "composefs"),
            None => false,
        };
        let bootloader = match &env.bootloader {
            Some(v) => Bootloader::parse(v.as_str()),
            None => None,
        };
        let filesystem = match &env.filesystem {
            Some(v) => Some(v.clone()),
            None => None,
        };
        let seal_state = match &env.seal_state {
            Some(v) => SealState::parse(v.as_str()),
            None => None,
        };
        let secure_boot_keys = match &env.secureboot_dir {
            Some(v) => if v.as_str().is_empty() {
                None
            } else {
                Some(v.clone())
            },
            None => None,
        };
        BcvkInstallOpts {
            composefs_backend,
            bootloader,
            filesystem,
            seal_state,
            kargs: no_texts(),
            secure_boot_keys,
        }
    }

    /// The install arguments of `bcvk libvirt run`.
    ///
    /// `--filesystem` and `--bootloader` come only together with
    /// `--composefs-backend`; the filesystem is then `ext4` unless another is
    /// chosen. Kernel arguments come in any case, last and in their order.
    pub open spec fn install_args_spec(&self) -> Seq<Seq<char>> {
        let backend = if self.composefs_backend {
            let fs = match self.filesystem {
                Some(fs) => fs@,
                None => "ext4"@,
            };
            let head = seq!["--composefs-backend"@, "--filesystem="@ + fs];
            match self.bootloader {
                Some(b) => head.push("--bootloader="@ + b.text()),
                None => head,
            }
        } else {
            seq![]
        };
        backend + prefixed("--karg="@, texts(self.kargs@))
    }

    /// The install arguments of `bcvk libvirt run`.
    pub fn install_args(&self) -> (r: Vec<String>)
        ensures
            texts(r@) == self.install_args_spec(),
    {
        let mut args = no_texts();
        if self.composefs_backend {
            push_text(&mut args, "--composefs-backend");
            let fs = match &self.filesystem {
                Some(fs) => fs.as_str(),
                None => "ext4",
            };
            let filesystem = concat2("--filesystem=", fs);
            push_text(&mut args, filesystem.as_str());
            match self.bootloader {
                Some(b) => {
                    let bootloader = concat2("--bootloader=", b.as_str());
                    push_text(&mut args, bootloader.as_str());
                },
                None => {},
            }
        }
        let kargs = prefixed_texts("--karg=", &self.kargs);
        crate::text::push_texts(&mut args, &kargs);
        assert(texts(args@) =~= self.install_args_spec());
        args
    }

    /// Whether the image is known to be sealed.
    pub fn is_sealed(&self) -> (r: bool)
        ensures
            r == (self.seal_state == Some(SealState::Sealed)),
    {
        match self.seal_state {
            Some(s) => s == SealState::Sealed,
            None => false,
        }
    }

    /// The directory of the secure boot keys.
    pub open spec fn keys_dir_spec(&self) -> Seq<char> {
        match self.secure_boot_keys {
            Some(dir) => dir@,
            None => DEFAULT_SB_KEYS_DIR@,
        }
    }

    /// The directory of the secure boot keys.
    pub fn secure_boot_keys_dir(&self) -> (r: &str)
        ensures
            r@ == self.keys_dir_spec(),
    {
        match &self.secure_boot_keys {
            Some(dir) => dir.as_str(),
            None => DEFAULT_SB_KEYS_DIR,
        }
    }

    /// The firmware and secure boot arguments of `bcvk libvirt run`.
    ///
    /// `found` is the canonical path of the directory of keys, `None` where there
    /// is no such directory. Only a sealed image looks at it: every other image
    /// boots with the insecure firmware, since the stock Secure Boot key database
    /// lacks the signing keys of the distributions.
    pub fn firmware_args(&self, found: Option<&str>) -> (r: Result<Vec<String>, FirmwareError>)
        ensures
            match (self.seal_state == Some(SealState::Sealed), opt_str(found)) {
                (false, _) => r matches Ok(args) && texts(args@)
                    == seq!["--firmware=uefi-insecure"@],
                (true, Some(dir)) => r matches Ok(args) && texts(args@)
                    == seq!["--firmware=uefi-secure"@, "--secure-boot-keys="@ + dir],
                (true, None) => r matches Err(FirmwareError::MissingKeys(dir)) && dir@
                    == self.keys_dir_spec(),
            },
    {
        let mut args = no_texts();
        if self.is_sealed() {
            match found {
                Some(dir) => {
                    push_text(&mut args, "--firmware=uefi-secure");
                    let keys = concat2("--secure-boot-keys=", dir);
                    push_text(&mut args, keys.as_str());
                    assert(texts(args@)
                        =~= seq!["--firmware=uefi-secure"@, "--secure-boot-keys="@ + dir@]);
                    Ok(args)
                },
                None => Err(FirmwareError::MissingKeys(self.secure_boot_keys_dir().to_string())),
            }
        } else {
            push_text(&mut args, "--firmware=uefi-insecure");
            assert(texts(args@) =~= seq!["--firmware=uefi-insecure"@]);
            Ok(args)
        }
    }
}

/// Reading back the name of a bootloader gives the bootloader.
pub proof fn law_bootloader_name_round_trips(b: Bootloader)
    ensures
        Bootloader::named(b.text()) == Some(b),
{
    reveal_strlit("grub");
    reveal_strlit("systemd");
    assert("grub"@.len() != "systemd"@.len());
}

/// Reading back the name of a seal state gives the seal state.
pub proof fn law_seal_state_name_round_trips(s: SealState)
    ensures
        SealState::named(s.text()) == Some(s),
{
    reveal_strlit("sealed");
    reveal_strlit("unsealed");
    assert("sealed"@.len() != "unsealed"@.len());
}

/// The names on the command line, and no text but these names a bootloader or a seal state.
pub proof fn law_names(s: Seq<char>)
    ensures
        Bootloader::named(s) == Some(Bootloader::Grub) <==> s == "grub"@,
        Bootloader::named(s) == Some(Bootloader::Systemd) <==> s == "systemd"@,
        Bootloader::named(s) is None <==> s != "grub"@ && s != "systemd"@,
        SealState::named(s) == Some(SealState::Sealed) <==> s == "sealed"@,
        SealState::named(s) == Some(SealState::Unsealed) <==> s == "unsealed"@,
        SealState::named(s) is None <==> s != "sealed"@ && s != "unsealed"@,
{
    reveal_strlit("grub");
    reveal_strlit("systemd");
    reveal_strlit("sealed");
    reveal_strlit("unsealed");
    assert("grub"@.len() != "systemd"@.len());
    assert("sealed"@.len() != "unsealed"@.len());
}

/// The backend, its file system and its bootloader are asked for exactly if the backend is composefs,
/// the bootloader only where one is chosen; every kernel argument is handed on, behind these and in
/// its order.
pub proof fn law_install_arguments(opts: BcvkInstallOpts)
    ensures
        ({
            let args = opts.install_args_spec();
            let n = opts.kargs@.len();
            let head: int = if !opts.composefs_backend {
                0
            } else if opts.bootloader is Some {
                3
            } else {
                2
            };
            &&& args.len() == head + n
            &&& forall|i: int|
                0 <= i < n ==> #[trigger] args[head + i] == "--karg="@ + opts.kargs@[i]@
            &&& opts.composefs_backend ==> args[0] == "--composefs-backend"@
            &&& opts.composefs_backend && opts.filesystem is None ==> args[1]
                == "--filesystem=ext4"@
            &&& opts.composefs_backend && opts.filesystem is Some ==> args[1] == "--filesystem="@
                + opts.filesystem->0@
            &&& opts.composefs_backend && opts.bootloader == Some(Bootloader::Grub) ==> args[2]
                == "--bootloader=grub"@
            &&& opts.composefs_backend && opts.bootloader == Some(Bootloader::Systemd) ==> args[2]
                == "--bootloader=systemd"@
        }),
{
    reveal_strlit("--filesystem=");
    reveal_strlit("--filesystem=ext4");
    reveal_strlit("ext4");
    reveal_strlit("--bootloader=");
    reveal_strlit("--bootloader=grub");
    reveal_strlit("--bootloader=systemd");
    reveal_strlit("grub");
    reveal_strlit("systemd");
    assert("--filesystem="@ + "ext4"@ =~= "--filesystem=ext4"@);
    assert("--bootloader="@ + "grub"@ =~= "--bootloader=grub"@);
    assert("--bootloader="@ + "systemd"@ =~= "--bootloader=systemd"@);
    let args = opts.install_args_spec();
    let kargs = prefixed("--karg="@, texts(opts.kargs@));
    let head = args.len() - kargs.len();
    assert forall|i: int| 0 <= i < opts.kargs@.len() implies #[trigger] args[head + i] == "--karg="@
        + opts.kargs@[i]@ by {
        assert(args[head + i] == kargs[i]);
    }
}

/// The keys are looked for where the user says, else in `target/test-secureboot`.
pub proof fn law_keys_directory(opts: BcvkInstallOpts)
    ensures
        opts.secure_boot_keys is None ==> opts.keys_dir_spec() == "target/test-secureboot"@,
        opts.secure_boot_keys matches Some(dir) ==> opts.keys_dir_spec() == dir@,
{
}

/// Each text of a list comes behind the prefix, in its place.
pub proof fn law_prefixed(prefix: Seq<char>, list: Seq<Seq<char>>)
    ensures
        prefixed(prefix, list).len() == list.len(),
        forall|i: int| 0 <= i < list.len() ==> #[trigger] prefixed(prefix, list)[i] == prefix
            + list[i],
{
}

/// Each option comes from its own variable: composefs exactly by that variant, names that are not known
/// count as not set, and so does an empty directory of keys.
pub proof fn law_options_from_the_environment(env: &InstallEnv, r: BcvkInstallOpts)
    requires
        call_ensures(BcvkInstallOpts::from_env, (env,), r),
    ensures
        r.composefs_backend <==> (env.variant matches Some(v) && v@ == "composefs"@),
        r.bootloader == Some(Bootloader::Grub) <==> (env.bootloader matches Some(v) && v@
            == "grub"@),
        r.bootloader == Some(Bootloader::Systemd) <==> (env.bootloader matches Some(v) && v@
            == "systemd"@),
        r.seal_state == Some(SealState::Sealed) <==> (env.seal_state matches Some(v) && v@
            == "sealed"@),
        r.seal_state == Some(SealState::Unsealed) <==> (env.seal_state matches Some(v) && v@
            == "unsealed"@),
        env.filesystem matches Some(v) ==> (r.filesystem matches Some(f) && f@ == v@),
        env.filesystem is None ==> r.filesystem is None,
        env.secureboot_dir is Some && env.secureboot_dir->0@.len() > 0 ==> (
        r.secure_boot_keys matches Some(d) && d@ == env.secureboot_dir->0@),
        env.secureboot_dir is None ==> r.secure_boot_keys is None,
        r.kargs@.len() == 0,
{
    if env.bootloader is Some {
        law_names(env.bootloader->0@);
    }
    if env.seal_state is Some {
        law_names(env.seal_state->0@);
    }
    assert(texts(r.kargs@).len() == r.kargs@.len());
}

/// Only a sealed image boots with secure firmware, and needs keys; every other boots with the insecure
/// one, keys or not.
pub proof fn law_firmware(
    opts: &BcvkInstallOpts,
    found: Option<&str>,
    r: Result<Vec<String>, FirmwareError>,
)
    requires
        call_ensures(BcvkInstallOpts::firmware_args, (opts, found), r),
    ensures
        opts.seal_state != Some(SealState::Sealed) ==> (r matches Ok(args) && texts(args@) == seq![
            "--firmware=uefi-insecure"@,
        ]),
        opts.seal_state == Some(SealState::Sealed) && found is Some ==> (r matches Ok(args) && texts(
            args@,
        ) == seq!["--firmware=uefi-secure"@, "--secure-boot-keys="@ + found->0@]),
        opts.seal_state == Some(SealState::Sealed) && found is None ==> (r matches Err(
            FirmwareError::MissingKeys(dir),
        ) && dir@ == opts.keys_dir_spec()),
{
}

} // verus!
