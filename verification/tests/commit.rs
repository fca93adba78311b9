use bootc_verified::commit::{
    container_commit, prepare_ostree_commit_in, prepare_ostree_commit_in_nonstrict, Entry,
    EntryKind, Removal, TransientDirs, CONTAINER_COMMIT_NOOP_MSG,
};

const DEV: u64 = 1;

fn file(name: &str) -> Entry {
    Entry {
        name: name.into(),
        dev: DEV,
        mountpoint: Some(false),
        kind: EntryKind::File,
    }
}

fn dir(name: &str, children: Vec<Entry>) -> Entry {
    Entry {
        name: name.into(),
        dev: DEV,
        mountpoint: Some(false),
        kind: EntryKind::Dir(children),
    }
}

fn root() -> TransientDirs {
    TransientDirs {
        dev: DEV,
        run: None,
        tmp: None,
        var_tmp: None,
        var_cache: None,
    }
}

fn shown(plan: &[Removal]) -> Vec<String> {
    plan.iter()
        .map(|r| match r {
            Removal::File(path) => format!("file {path}"),
            Removal::Dir(path) => format!("dir {path}"),
        })
        .collect()
}

fn removes(plan: &[Removal], wanted: &str) -> bool {
    plan.iter().any(|r| match r {
        Removal::File(path) | Removal::Dir(path) => path == wanted,
    })
}

#[test]
fn commit() {
    // Handle the empty case
    assert!(prepare_ostree_commit_in(&root()).is_empty());
    assert!(prepare_ostree_commit_in_nonstrict(&root()).is_empty());

    // var, run, tmp; var/tmp/foo/bar/{a,b}; run/systemd/resolv.conf
    let filled = TransientDirs {
        run: Some(vec![dir("systemd", vec![file("resolv.conf")])]),
        tmp: Some(vec![]),
        var_tmp: Some(vec![dir("foo", vec![dir("bar", vec![file("a"), file("b")])])]),
        ..root()
    };
    let plan = prepare_ostree_commit_in(&filled);
    assert!(!removes(&plan, "var"));
    assert!(!removes(&plan, "var/tmp"));
    assert!(removes(&plan, "var/tmp/foo/bar"));
    assert!(!removes(&plan, "run"));
    assert!(removes(&plan, "run/systemd"));

    let again = TransientDirs {
        run: Some(vec![dir("systemd", vec![])]),
        tmp: Some(vec![]),
        var_tmp: Some(vec![]),
        ..root()
    };
    let plan = prepare_ostree_commit_in(&again);
    assert!(!removes(&plan, "var"));
    assert!(removes(&plan, "run/systemd"));

    // Only var/foo is left: var/tmp is not created, and var stays.
    let no_var_tmp = TransientDirs {
        run: Some(vec![]),
        tmp: Some(vec![]),
        ..root()
    };
    assert!(prepare_ostree_commit_in(&no_var_tmp).is_empty());
    assert!(prepare_ostree_commit_in_nonstrict(&no_var_tmp).is_empty());

    // var/lib/nested/{foo,foo2} is none of the directories that are cleaned.
    let plan = prepare_ostree_commit_in(&no_var_tmp);
    assert!(!removes(&plan, "var"));
    assert!(!removes(&plan, "var/lib/nested"));
}

#[test]
fn container_commit_is_noop() {
    // Works anywhere, not only in an ostree container, and only prints a note.
    let mut out = Vec::new();
    container_commit(&mut out);
    let out = String::from_utf8(out).unwrap();
    assert_eq!(out, format!("{CONTAINER_COMMIT_NOOP_MSG}\n"));
    // The note must tell users the cleanup is gone and what to do instead.
    for needle in [
        "no longer needed",
        "no longer cleans /var/cache",
        "dnf clean all",
        "--mount=type=cache",
        "bootc container lint",
    ] {
        assert!(out.contains(needle), "missing {needle:?} in {out:?}");
    }
}

#[test]
fn contents_go_before_directories() {
    let plan = prepare_ostree_commit_in(&TransientDirs {
        run: Some(vec![dir("a", vec![file("x"), dir("b", vec![])]), file("y")]),
        var_cache: Some(vec![file("z")]),
        ..root()
    });
    assert_eq!(
        shown(&plan),
        [
            "file run/a/x",
            "dir run/a/b",
            "dir run/a",
            "file run/y",
            "file var/cache/z"
        ]
    );
}

#[test]
fn other_mounts_stay_with_what_they_are_in() {
    let foreign = Entry {
        dev: 2,
        ..dir("mnt", vec![file("keep")])
    };
    let bind = Entry {
        mountpoint: Some(true),
        ..dir("bind", vec![file("keep")])
    };
    let unknown = Entry {
        mountpoint: None,
        ..dir("plain", vec![])
    };
    let plan = prepare_ostree_commit_in(&TransientDirs {
        tmp: Some(vec![
            dir("a", vec![file("x"), foreign]),
            bind,
            unknown,
            Entry {
                dev: 3,
                ..file(".containerenv")
            },
        ]),
        ..root()
    });
    assert_eq!(shown(&plan), ["file tmp/a/x", "dir tmp/plain"]);

    let nested = Entry {
        mountpoint: Some(true),
        ..dir("bind", vec![file("keep")])
    };
    let plan = prepare_ostree_commit_in(&TransientDirs {
        tmp: Some(vec![dir("a", vec![nested, file("x")]), file("y")]),
        ..root()
    });
    assert_eq!(shown(&plan), ["file tmp/a/x", "file tmp/y"]);
}
