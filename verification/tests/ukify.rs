use bootc_verified::cmdline::build_cmdline;
use std::cell::RefCell;

use bootc_verified::ukify::{
    build_composefs_karg, choose_erofs_version, composefs_kargs_for_uki,
    kargs_of_digests, resolve_erofs_version_with, select_kernel, ErofsVersionArg, FormatVersion,
    Kernel, KernelFiles, KernelType, ProbeError, ProbeOutput, RootDigests, UkifyError,
    COMPOSEFS_DIGEST_V1_FEATURE, COMPOSEFS_DIGEST_V1_FEATURE_CONTENT,
};
use composefs::fsverity::{FsVerityHashValue, Sha512HashValue};

#[test]
fn test_composefs_kargs_for_uki() {
    let v1 = Sha512HashValue::EMPTY;
    let v2 = Sha512HashValue::from_hex("aa".repeat(64)).unwrap();
    for (version, fallback, expected_len, expected_prefixes) in [
        (
            FormatVersion::V1,
            Some(v2),
            2,
            ["composefs.digest=v1-sha512-12:", "composefs="],
        ),
        (FormatVersion::V2, None, 1, ["composefs=", ""]),
    ] {
        let kargs = composefs_kargs_for_uki(&v1, version, fallback.as_ref(), false);
        assert_eq!(kargs.len(), expected_len);
        for (karg, prefix) in kargs.iter().zip(expected_prefixes) {
            assert!(karg.starts_with(prefix), "unexpected karg: {karg}");
        }
    }
}

#[test]
fn resolve_erofs_version_uses_initramfs_capabilities() {
    fn output(success: bool, stdout: &[u8]) -> ProbeOutput {
        ProbeOutput {
            success,
            stdout: stdout.into(),
            stderr: b"fixture error".to_vec(),
        }
    }

    let initramfs = "/test/initramfs.img";
    for (name, requested, responses, expected) in [
        (
            "auto capable",
            None,
            vec![
                output(true, b""),
                output(true, COMPOSEFS_DIGEST_V1_FEATURE_CONTENT.as_bytes()),
            ],
            Ok(FormatVersion::V1),
        ),
        (
            "auto legacy",
            None,
            vec![output(true, b""), output(false, b"")],
            Ok(FormatVersion::V2),
        ),
        (
            "explicit v1 legacy",
            Some(ErofsVersionArg::V1),
            vec![output(true, b""), output(false, b"")],
            Err("--erofs-version=v1 requires"),
        ),
        (
            "malformed archive",
            None,
            vec![output(false, b"")],
            Err("could not read the archive"),
        ),
        (
            "unexpected marker",
            None,
            vec![output(true, b""), output(true, b"wrong\n")],
            Err("unexpected composefs V1 capability marker"),
        ),
        (
            "explicit v2 skips probing",
            Some(ErofsVersionArg::V2),
            vec![],
            Ok(FormatVersion::V2),
        ),
    ] {
        let calls: RefCell<Vec<Vec<String>>> = RefCell::new(Vec::new());
        let responses = RefCell::new(responses.into_iter());
        let result = resolve_erofs_version_with(requested, initramfs, |args: &Vec<String>| {
            calls.borrow_mut().push(args.clone());
            responses
                .borrow_mut()
                .next()
                .ok_or_else(|| ProbeError("unexpected lsinitrd invocation".into()))
        });
        match expected {
            Ok(version) => assert_eq!(result.unwrap(), version, "case {name}"),
            Err(message) => assert!(
                result.unwrap_err().message().contains(message),
                "case {name}"
            ),
        }
        if requested == Some(ErofsVersionArg::V2) {
            assert!(calls.borrow().is_empty(), "case {name}");
        } else {
            assert_eq!(calls.borrow()[0], ["/test/initramfs.img"], "case {name}");
            if calls.borrow().len() == 2 {
                assert_eq!(
                    calls.borrow()[1],
                    ["--file", COMPOSEFS_DIGEST_V1_FEATURE, "/test/initramfs.img",],
                    "case {name}"
                );
            }
        }
    }
}

#[test]
fn resolve_erofs_version_fails_closed_when_lsinitrd_is_unavailable() {
    let error = resolve_erofs_version_with(None, "/test/initramfs.img", |_: &Vec<String>| {
        Err(ProbeError("lsinitrd executable not found".into()))
    })
    .unwrap_err();
    assert!(error.message().contains("Validating initramfs"));
}

#[test]
fn unreadable_archives_say_why() {
    let error = resolve_erofs_version_with(None, "/i", |_: &Vec<String>| {
        Ok(ProbeOutput {
            success: false,
            stdout: Vec::new(),
            stderr: b"  bad \xff magic\n".to_vec(),
        })
    })
    .unwrap_err();
    assert_eq!(
        error.message(),
        "Validating initramfs /i failed: lsinitrd could not read the archive: bad \u{fffd} magic"
    );
}

#[test]
fn a_listed_marker_has_to_be_read() {
    let empty = Vec::new();
    let listing = format!("drwx {COMPOSEFS_DIGEST_V1_FEATURE}\n").into_bytes();
    let error = choose_erofs_version(None, "/i", &listing, &empty).unwrap_err();
    assert_eq!(
        error.message(),
        "Initramfs /i has an unexpected composefs V1 capability marker; rebuild its initramfs"
    );
    let cut = COMPOSEFS_DIGEST_V1_FEATURE.as_bytes()[1..].to_vec();
    assert_eq!(
        choose_erofs_version(None, "/i", &cut, &empty).unwrap(),
        FormatVersion::V2
    );
    let content = COMPOSEFS_DIGEST_V1_FEATURE_CONTENT.as_bytes().to_vec();
    assert_eq!(
        choose_erofs_version(Some(ErofsVersionArg::V1), "/i", &empty, &content).unwrap(),
        FormatVersion::V1
    );
}

#[test]
fn kargs_are_exact() {
    let digest = Sha512HashValue::from_hex("Ab".repeat(64)).unwrap();
    let hex = "ab".repeat(64);
    assert_eq!(
        build_composefs_karg(&digest, FormatVersion::V1, false),
        format!("composefs.digest=v1-sha512-12:{hex}")
    );
    assert_eq!(
        build_composefs_karg(&digest, FormatVersion::V1, true),
        format!("composefs.digest=?v1-sha512-12:{hex}")
    );
    assert_eq!(
        build_composefs_karg(&digest, FormatVersion::V2, false),
        format!("composefs={hex}")
    );
    assert_eq!(
        build_composefs_karg(&digest, FormatVersion::V2, true),
        format!("composefs=?{hex}")
    );
}

#[test]
fn digests_are_parsed() {
    let good = "0F".repeat(64);
    let bad = "0g".repeat(64);
    let short = "00".repeat(63);
    let kargs = kargs_of_digests(
        &RootDigests::V1 {
            preferred: &good,
            compatibility: &good,
        },
        false,
    )
    .unwrap();
    assert_eq!(kargs.len(), 2);
    assert_eq!(kargs[1], format!("composefs={}", "0f".repeat(64)));
    assert!(matches!(
        kargs_of_digests(&RootDigests::V2 { digest: &bad }, false),
        Err(UkifyError::BadDigest)
    ));
    assert!(matches!(
        kargs_of_digests(
            &RootDigests::V1 {
                preferred: &good,
                compatibility: &short
            },
            false
        ),
        Err(UkifyError::BadV2Digest)
    ));
}

#[test]
fn command_lines_grow_behind() {
    let kargs = vec!["b=2".to_string(), "a=1".to_string(), "c d".to_string()];
    assert_eq!(build_cmdline("a=1 quiet", &kargs), "a=1 quiet b=2 c d");
    assert_eq!(build_cmdline("x", &Vec::new()), "x");
}

#[test]
fn parameters_are_added_once() {
    let list = |texts: &[&str]| texts.iter().map(|t| t.to_string()).collect::<Vec<String>>();
    // A dash and an underscore are the same in a key, and not in a value.
    assert_eq!(build_cmdline("a-b=1", &list(&["a_b=1 c"])), "a-b=1 c");
    assert_eq!(build_cmdline("a=x-y", &list(&["a=x_y"])), "a=x-y a=x_y");
    assert_eq!(build_cmdline("a-b", &list(&["a_b=", "a_b"])), "a-b a_b=");
    // The space is there only where it is needed.
    assert_eq!(build_cmdline("", &list(&["a", " b\tc "])), "a b c");
    assert_eq!(build_cmdline("a\n", &list(&["b"])), "a\nb");
    assert_eq!(build_cmdline("a", &list(&["", "  "])), "a");
    // The same key can come with several values.
    assert_eq!(
        build_cmdline("console=tty0", &list(&["console=ttyS0", "console=tty0"])),
        "console=tty0 console=ttyS0"
    );
    // What stands in quotes is one parameter.
    assert_eq!(
        build_cmdline("a=\"b c\"", &list(&["c", "a=\"b c\""])),
        "a=\"b c\" c"
    );
    // Quotes round a parameter or its value do not count.
    assert_eq!(
        build_cmdline("a=\"b c\" d", &list(&["\"a=b c\" \"d\" d=\"\" d="])),
        "a=\"b c\" d d=\"\""
    );
    // A quote that is open takes in what is added.
    assert_eq!(build_cmdline("a=\"b", &list(&["c", "c"])), "a=\"b c c");
    assert_eq!(build_cmdline("x", &list(&["y", "a=\"b", "y"])), "x y a=\"b");
    assert_eq!(build_cmdline("x a=\"b ", &list(&["x c"])), "x a=\"b c");
}

#[test]
fn digests_follow_a_quoted_command_line() {
    let ready = files()
        .checked(true, true)
        .unwrap()
        .versioned(FormatVersion::V2)
        .with_ukify(true)
        .unwrap();
    let digest = "AB".repeat(64);
    let argv = ready
        .ukify_argv(
            &RootDigests::V2 { digest: &digest },
            "root=\"x y\" quiet",
            &vec!["quiet a=\"b c".to_string(), "d".to_string()],
            false,
        )
        .unwrap();
    assert_eq!(
        argv[8],
        format!("root=\"x y\" quiet composefs={} a=\"b c d", "ab".repeat(64))
    );
}

fn files() -> KernelFiles {
    KernelFiles {
        vmlinuz: "usr/lib/modules/6/vmlinuz".into(),
        initramfs: "usr/lib/modules/6/initramfs.img".into(),
        version: "6".into(),
    }
}

#[test]
fn builds_need_a_kernel_and_its_files() {
    assert_eq!(
        select_kernel(None, "/root").unwrap_err().message(),
        "No kernel found in /root"
    );
    let uki = Kernel {
        k_type: KernelType::Uki {
            path: "boot/EFI/Linux/test.efi".into(),
        },
        version: "6".into(),
    };
    assert_eq!(
        select_kernel(Some(&uki), "/root").unwrap_err().message(),
        "Cannot build UKI: rootfs already contains a UKI at boot/EFI/Linux/test.efi"
    );
    let kernel = Kernel {
        k_type: KernelType::Vmlinuz {
            path: "v".into(),
            initramfs: "/i".into(),
        },
        version: "6".into(),
    };
    let selected = select_kernel(Some(&kernel), "/root").unwrap();
    assert_eq!(selected.vmlinuz, "v");
    assert!(matches!(
        selected.checked(false, false),
        Err(UkifyError::KernelMissing(_))
    ));
    assert_eq!(
        files().checked(true, false).unwrap_err().message(),
        "Initramfs not found at usr/lib/modules/6/initramfs.img"
    );
    let checked = select_kernel(Some(&kernel), "/root")
        .unwrap()
        .checked(true, true)
        .unwrap();
    assert_eq!(checked.archive("/root"), "/i");
    assert_eq!(
        files().checked(true, true).unwrap().archive("/root"),
        "/root/usr/lib/modules/6/initramfs.img"
    );
}

#[test]
fn ukify_arguments() {
    let versioned = files()
        .checked(true, true)
        .unwrap()
        .versioned(FormatVersion::V1);
    assert!(matches!(
        versioned.with_ukify(false),
        Err(UkifyError::NoUkify)
    ));
    let ready = files()
        .checked(true, true)
        .unwrap()
        .versioned(FormatVersion::V1)
        .with_ukify(true)
        .unwrap();
    assert_eq!(ready.wanted_digests(), (FormatVersion::V1, true));
    let (v1, v2) = ("11".repeat(64), "22".repeat(64));
    let argv = ready
        .ukify_argv(
            &RootDigests::V1 {
                preferred: &v1,
                compatibility: &v2,
            },
            "root=x",
            &vec!["quiet".to_string()],
            true,
        )
        .unwrap();
    assert_eq!(
        argv,
        [
            "build",
            "--linux",
            "usr/lib/modules/6/vmlinuz",
            "--initrd",
            "usr/lib/modules/6/initramfs.img",
            "--uname",
            "6",
            "--cmdline",
            &format!(
                "root=x composefs.digest=?v1-sha512-12:{v1} composefs=?{v2} quiet"
            ),
            "--os-release",
            "@usr/lib/os-release",
        ]
    );
}
