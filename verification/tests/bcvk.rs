use bootc_verified::bcvk::{
    BcvkInstallOpts, Bootloader, InstallEnv, SealState, DEFAULT_SB_KEYS_DIR,
};

fn sealed(keys: Option<String>) -> BcvkInstallOpts {
    BcvkInstallOpts {
        seal_state: Some(SealState::Sealed),
        secure_boot_keys: keys,
        ..Default::default()
    }
}

#[test]
fn firmware_args_use_configured_keys_without_environment() {
    let keys = "/tmp/x/keys".to_string();
    let args = sealed(Some(keys.clone())).firmware_args(Some(&keys)).unwrap();
    assert_eq!(
        args,
        vec![
            "--firmware=uefi-secure".to_owned(),
            format!("--secure-boot-keys={}", keys)
        ]
    );
}

#[test]
fn firmware_args_report_missing_configured_keys_and_skip_unsealed_keys() {
    let missing = "/tmp/x/missing".to_string();
    let error = sealed(Some(missing.clone())).firmware_args(None).unwrap_err();
    assert!(error.message().contains(missing.as_str()));
    let args = BcvkInstallOpts {
        secure_boot_keys: Some(missing),
        ..Default::default()
    }
    .firmware_args(None)
    .unwrap();
    assert_eq!(args, vec!["--firmware=uefi-insecure".to_owned()]);
}

#[test]
fn defaults_to_the_existing_secure_boot_key_directory() {
    assert_eq!(
        BcvkInstallOpts::default().secure_boot_keys_dir(),
        DEFAULT_SB_KEYS_DIR
    );
}

fn env() -> InstallEnv {
    InstallEnv {
        variant: None,
        bootloader: None,
        filesystem: None,
        seal_state: None,
        secureboot_dir: None,
    }
}

#[test]
fn options_come_from_the_environment() {
    let opts = BcvkInstallOpts::from_env(&InstallEnv {
        variant: Some("composefs".into()),
        bootloader: Some("systemd".into()),
        filesystem: Some("btrfs".into()),
        seal_state: Some("sealed".into()),
        secureboot_dir: Some("/keys".into()),
    });
    assert!(opts.composefs_backend);
    assert!(opts.is_sealed());
    assert_eq!(opts.bootloader, Some(Bootloader::Systemd));
    assert_eq!(opts.secure_boot_keys_dir(), "/keys");
    assert_eq!(
        opts.install_args(),
        ["--composefs-backend", "--filesystem=btrfs", "--bootloader=systemd"]
    );

    let odd = BcvkInstallOpts::from_env(&InstallEnv {
        variant: Some("ostree".into()),
        bootloader: Some("lilo".into()),
        seal_state: Some("maybe".into()),
        secureboot_dir: Some(String::new()),
        ..env()
    });
    assert!(!odd.composefs_backend);
    assert_eq!(odd.bootloader, None);
    assert_eq!(odd.seal_state, None);
    assert!(!odd.is_sealed());
    assert_eq!(odd.secure_boot_keys_dir(), DEFAULT_SB_KEYS_DIR);
}

#[test]
fn install_args_need_the_backend() {
    let mut opts = BcvkInstallOpts {
        filesystem: Some("xfs".into()),
        bootloader: Some(Bootloader::Grub),
        kargs: vec!["a=1".into(), "b".into()],
        ..Default::default()
    };
    assert_eq!(opts.install_args(), ["--karg=a=1", "--karg=b"]);
    opts.composefs_backend = true;
    opts.filesystem = None;
    assert_eq!(
        opts.install_args(),
        [
            "--composefs-backend",
            "--filesystem=ext4",
            "--bootloader=grub",
            "--karg=a=1",
            "--karg=b"
        ]
    );
}

#[test]
fn names_round_trip() {
    for b in [Bootloader::Grub, Bootloader::Systemd] {
        assert_eq!(Bootloader::parse(b.as_str()), Some(b));
    }
    for s in [SealState::Sealed, SealState::Unsealed] {
        assert_eq!(SealState::parse(s.as_str()), Some(s));
    }
    assert_eq!(
        sealed(None).firmware_args(None).unwrap_err().message(),
        "Sealed image but no secure boot keys at target/test-secureboot. Run 'just generate-secureboot-keys' to generate them."
    );
}
