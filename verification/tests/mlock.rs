use bootc_verified::mlock::{
    check_increase, executable_backing, plan_mlock, read_vmlck, should_activate,
    unescape_mountinfo_path, ExecutableBacking, InvalidMode, MlockMode, MountinfoError,
    NotIncreased, VmlckError,
};

#[test]
fn mlock_mode_from_env() {
    for (input, expected) in [
        (None, None),
        (Some("auto"), Some(MlockMode::Auto)),
        (Some("force"), Some(MlockMode::Force)),
    ] {
        assert_eq!(MlockMode::from_env(input).unwrap(), expected);
    }
    assert!(MlockMode::from_env(Some("yes")).is_err());
}

#[test]
fn parse_vmlck() {
    for (status, expected) in [
        ("Name:\tbootc\nVmLck:\t       0 kB\n", Ok(0)),
        ("VmLck:\t  1234 kB\n", Ok(1234)),
        ("Name:\tbootc\n", Err(())),
        ("VmLck:\t nope kB\n", Err(())),
    ] {
        assert_eq!(read_vmlck(status).map_err(|_| ()), expected);
    }
}

#[test]
fn detect_executable_backing() {
    for (mountinfo, executable, expected) in [
        (
            "25 1 0:24 / / rw - virtiofs host rw\n",
            "/usr/bin/bootc",
            ExecutableBacking::Virtiofs,
        ),
        (
            "25 1 0:24 / / rw - ext4 /dev/vda rw\n",
            "/usr/bin/bootc",
            ExecutableBacking::Other("ext4".into()),
        ),
        (
            "25 1 0:24 / / rw - overlay overlay rw\n",
            "/usr/bin/bootc",
            ExecutableBacking::OverlayUnknown,
        ),
        (
            "25 1 0:24 / / rw - ext4 /dev/vda rw\n26 25 0:25 / /usr rw - virtiofs host rw\n",
            "/usr/bin/bootc",
            ExecutableBacking::Virtiofs,
        ),
        (
            "25 1 0:24 / / rw - ext4 /dev/vda rw\n",
            "/opt/bootc",
            ExecutableBacking::Other("ext4".into()),
        ),
        (
            "25 1 0:24 / /opt\\040tools rw - virtiofs host rw\n",
            "/opt tools/bin/bootc",
            ExecutableBacking::Virtiofs,
        ),
    ] {
        assert_eq!(executable_backing(mountinfo, executable).unwrap(), expected);
    }
    assert!(executable_backing("malformed\n", "/usr/bin/bootc").is_err());
}

#[test]
fn choose_mlock_activation() {
    for (mode, backing, expected) in [
        (MlockMode::Auto, ExecutableBacking::Virtiofs, true),
        (MlockMode::Auto, ExecutableBacking::OverlayUnknown, false),
        (MlockMode::Auto, ExecutableBacking::Unknown, false),
        (
            MlockMode::Auto,
            ExecutableBacking::Other("ext4".into()),
            false,
        ),
        (MlockMode::Force, ExecutableBacking::Virtiofs, true),
        (MlockMode::Force, ExecutableBacking::OverlayUnknown, true),
        (MlockMode::Force, ExecutableBacking::Unknown, true),
    ] {
        assert_eq!(should_activate(mode, &backing), expected);
    }
}

#[test]
fn invalid_mode_is_quoted() {
    let error = MlockMode::from_env(Some("a\"b")).unwrap_err();
    assert_eq!(
        error.message(),
        "Invalid BOOTC_EXPERIMENTAL_MLOCK_VIRTIOFS=\"a\\\"b\"; expected one of: auto, force"
    );
    let InvalidMode(value) = error;
    assert_eq!(value, "a\"b");
}

#[test]
fn escapes_are_octal() {
    assert_eq!(unescape_mountinfo_path("/a\\040b\\134c").unwrap(), "/a b\\c");
    assert_eq!(unescape_mountinfo_path("plain").unwrap(), "plain");
    assert_eq!(unescape_mountinfo_path("\\7").unwrap(), "\u{7}");
    assert_eq!(unescape_mountinfo_path("\\351").unwrap(), "\u{e9}");
    assert!(unescape_mountinfo_path("\\").is_err());
    assert!(unescape_mountinfo_path("\\08x").is_err());
    assert!(unescape_mountinfo_path("\\777").is_err());
}

#[test]
fn mountinfo_errors_name_the_line() {
    let text = "25 1 0:24 / / rw - ext4 /dev/vda rw\nbroken\n";
    let error = executable_backing(text, "/usr/bin/bootc").unwrap_err();
    assert_eq!(error.message(), "Mountinfo line 2 lacks separator");
    let short = executable_backing("25 1 0:24 / - ext4 x\n", "/x").unwrap_err();
    assert!(matches!(short, MountinfoError::NoMountpoint));
    let escape = executable_backing("25 1 0:24 / /\\9 rw - ext4 x\n", "/x").unwrap_err();
    assert_eq!(escape.message(), "Invalid mountinfo escape in \"/\\\\9\"");
    let nofs = executable_backing("25 1 0:24 / / rw -  \n", "/x").unwrap_err();
    assert!(matches!(nofs, MountinfoError::NoFilesystem));
}

#[test]
fn longest_mount_wins_and_the_first_of_equals() {
    let text = "1 1 0:1 / /usr rw - xfs a rw\n2 1 0:2 / / rw - ext4 b rw\n3 1 0:3 / /usr rw - btrfs c rw\n";
    assert_eq!(
        executable_backing(text, "/usr/bin/bootc").unwrap(),
        ExecutableBacking::Other("xfs".into())
    );
    // A mount on the file itself does not count, nor does one that only shares letters.
    let other = "1 1 0:1 / /usr/bin/bootc rw - xfs a rw\n2 1 0:2 / /us rw - ext4 b rw\n";
    assert_eq!(
        executable_backing(other, "/usr/bin/bootc").unwrap(),
        ExecutableBacking::Unknown
    );
}

#[test]
fn vmlck_errors() {
    assert_eq!(read_vmlck("VmLck:   \n"), Err(VmlckError::NoValue));
    assert_eq!(read_vmlck(""), Err(VmlckError::Missing));
    assert_eq!(read_vmlck("VmLck: -1 kB"), Err(VmlckError::NotANumber));
    assert_eq!(
        read_vmlck("VmLck: 18446744073709551615 kB"),
        Ok(18446744073709551615)
    );
    assert_eq!(
        read_vmlck("VmLck: 18446744073709551616 kB"),
        Err(VmlckError::NotANumber)
    );
}

#[test]
fn unreadable_mountinfo_leaves_the_backing_unknown() {
    let status = "VmLck: 5 kB\n";
    let plan = plan_mlock(MlockMode::Auto, Some("broken"), "/x", status).unwrap();
    assert_eq!(plan.backing, ExecutableBacking::Unknown);
    assert!(matches!(
        plan.mountinfo_error,
        Some(MountinfoError::NoSeparator(1))
    ));
    assert!(!plan.activate);
    let escaped = "25 1 0:24 / / rw - ext4 a rw\n26 25 0:25 / /x\\08 rw - ext4 a rw\n";
    let plan = plan_mlock(MlockMode::Auto, Some(escaped), "/x", status).unwrap();
    assert!(matches!(
        plan.mountinfo_error,
        Some(MountinfoError::BadEscape(path)) if path == "/x\\08"
    ));
    let forced = plan_mlock(MlockMode::Force, None, "/x", status).unwrap();
    assert!(forced.activate);
    assert_eq!(forced.vmlck_before, 5);
    assert!(plan_mlock(MlockMode::Force, None, "/x", "").is_err());
}

#[test]
fn locking_has_to_have_an_effect() {
    assert_eq!(check_increase(1, 2), Ok(()));
    let error = check_increase(2, 2).unwrap_err();
    assert_eq!(error, NotIncreased { before: 2, after: 2 });
    assert_eq!(
        error.message(),
        "Experimental virtiofs mlockall(MCL_CURRENT) did not increase VmLck: before=2 KiB after=2 KiB"
    );
}
