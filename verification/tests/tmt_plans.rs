use bootc_verified::tmt::integration::{
    assemble, check_integration, display_name_of, file_step, generate_integration, sort_tests,
    splice_plans, test_command_of, test_def, test_stem, FileStep, IntegrationError, OutOfDate,
    TestFile, PLAN_MARKER_BEGIN, PLAN_MARKER_END, TESTS_HEADER,
};
use bootc_verified::tmt::metadata::parse_tmt_metadata;
use bootc_verified::tmt::plans::{
    connection_step, fresh_install_selected, metadata_for, parse_plan_metadata, plans_listed,
    select_plans, ConnectionStep, PlanMetadata, PlansError, Selection,
};
use bootc_verified::tmt::run::{plan_run, plan_tests, RunPlan};

fn file(name: &str, content: &str) -> TestFile {
    TestFile {
        name: name.into(),
        content: content.into(),
    }
}

#[test]
fn names_of_tests() {
    assert_eq!(test_stem("test-01-readonly.nu").unwrap(), "01-readonly");
    assert_eq!(test_stem("test-x.sh").unwrap(), "x");
    assert_eq!(test_stem("test-x.py").unwrap(), "x");
    assert_eq!(test_stem("test-x.rs"), None);
    assert_eq!(test_stem("x.nu"), None);
    assert_eq!(display_name_of("01-readonly"), "readonly");
    assert_eq!(display_name_of("a1-readonly"), "a1-readonly");
    assert_eq!(display_name_of("plain"), "plain");
    assert_eq!(test_command_of("test-a.nu"), "nu booted/test-a.nu");
    assert_eq!(test_command_of("test-a.sh"), "bash booted/test-a.sh");
    assert_eq!(test_command_of("test-a.py"), "python3 booted/test-a.py");
}

const EXISTING: &str = "keep above\n# BEGIN GENERATED PLANS\nold\n# END GENERATED PLANS\nkeep below\n";

#[test]
fn files_are_generated_in_order() {
    let files = vec![
        file(
            "test-02-second.sh",
            "# number: 2\n# extra:\n#   fresh_install_disk: true\n#   try_bind_storage: true\n# tmt:\n#   summary: Second\n#   duration: 30m\n",
        ),
        file("README.md", "nothing"),
        file(
            "test-01-first.nu",
            "# number: 1\n# tmt:\n#   summary: First\n#   adjust:\n#     - when: x\n#       enabled: false\n",
        ),
    ];
    let generated = generate_integration(&files, EXISTING).unwrap();
    let expected_tests = format!(
        "{TESTS_HEADER}/test-01-first:\n  summary: First\n  adjust:\n  - when: x\n    enabled: false\n  test: nu booted/test-01-first.nu\n\n/test-02-second:\n  summary: Second\n  duration: 30m\n  test: bash booted/test-02-second.sh\n"
    );
    assert_eq!(generated.tests, expected_tests);
    let expected_plans = "/plan-01-first:\n  summary: First\n  discover:\n    how: fmf\n    test:\n      - /tmt/tests/tests/test-01-first\n  adjust:\n  - when: x\n    enabled: false\n\n/plan-02-second:\n  summary: Second\n  discover:\n    how: fmf\n    test:\n      - /tmt/tests/tests/test-02-second\n  extra-try_bind_storage: true\n  extra-fresh_install_disk: true\n";
    assert_eq!(
        generated.integration,
        format!("keep above\n{PLAN_MARKER_BEGIN}{expected_plans}{PLAN_MARKER_END}keep below\n")
    );
    // An update leaves the files in sync.
    let again = generate_integration(&files, &generated.integration).unwrap();
    assert_eq!(
        check_integration(&again, &generated.tests, &generated.integration),
        Ok(())
    );
    assert_eq!(
        check_integration(&generated, "x", "y"),
        Err(OutOfDate::Tests)
    );
    assert_eq!(
        check_integration(&generated, &generated.tests, EXISTING),
        Err(OutOfDate::Integration)
    );
    assert_eq!(file_step(Some("x"), "x"), FileStep::Unchanged);
    assert_eq!(file_step(Some("y"), "x"), FileStep::Write);
    assert_eq!(file_step(None, "x"), FileStep::Write);
}

#[test]
fn generation_errors_have_their_inputs() {
    let bad = vec![file("test-a.nu", "no metadata\n")];
    assert_eq!(
        generate_integration(&bad, EXISTING).unwrap_err().message(),
        "Missing tmt metadata in test-a.nu"
    );
    let bad = vec![file("test-a.nu", "# number: x\n")];
    assert!(matches!(
        generate_integration(&bad, EXISTING),
        Err(IntegrationError::Metadata(_, _))
    ));
    let none = Vec::new();
    assert!(matches!(
        generate_integration(&none, "nothing"),
        Err(IntegrationError::MissingBegin)
    ));
    assert!(matches!(
        splice_plans(PLAN_MARKER_BEGIN, "x"),
        Err(IntegrationError::MissingEnd)
    ));
    assert_eq!(
        splice_plans(EXISTING, "new\n").unwrap(),
        "keep above\n# BEGIN GENERATED PLANS\nnew\n# END GENERATED PLANS\nkeep below\n"
    );
    let assembled = assemble("/test-a:\n  x: y\n/test-b:\n", "/plan-a:\n", EXISTING).unwrap();
    assert!(assembled.tests.ends_with("/test-a:\n  x: y\n\n/test-b:\n"));
}

#[test]
fn tests_sort_by_number_and_name() {
    let def = |name: &str, number: &str| {
        let metadata = parse_tmt_metadata(&format!("# number: {number}\n"))
            .unwrap()
            .unwrap();
        test_def(&format!("test-{name}.nu"), metadata).unwrap()
    };
    let sorted = sort_tests(vec![def("c", "2"), def("b", "10"), def("b", "2"), def("a", "3")]);
    let names: Vec<(u32, String)> = sorted.into_iter().map(|t| (t.number, t.name)).collect();
    assert_eq!(
        names,
        [
            (2, "b".to_string()),
            (2, "c".to_string()),
            (3, "a".to_string()),
            (10, "b".to_string())
        ]
    );
}

const PLANS: &str = r#"
/plan-01-readonly:
  summary: First
  extra-try_bind_storage: true
/plan-02-skips:
  extra-fixme_skip_if_composefs: true
  extra-skip_if_ostree: false
/plan-03-fresh:
  extra-fresh_install_disk: true
  extra-fixme_skip_if_uki: true
/plan-04-none:
  extra-try_bind_storage: yes please
/plan-05-ostree:
  extra-skip_if_ostree: true
other:
  extra-try_bind_storage: true
"#;

#[test]
fn plans_tell_of_themselves() {
    let table = parse_plan_metadata(PLANS).unwrap();
    assert_eq!(table.len(), 4);
    let none = PlanMetadata::default();
    assert_eq!(
        metadata_for(&table, "/tmt/plans/integration/plan-01-readonly"),
        PlanMetadata {
            try_bind_storage: true,
            ..none
        }
    );
    assert_eq!(
        metadata_for(&table, "/plan-03-fresh"),
        PlanMetadata {
            fresh_install_disk: true,
            skip_if_uki: true,
            ..none
        }
    );
    assert_eq!(metadata_for(&table, "/plan-04-none"), none);
    assert!(matches!(
        parse_plan_metadata("- a"),
        Err(PlansError::NotAMapping)
    ));
    assert!(matches!(
        parse_plan_metadata("a: ["),
        Err(PlansError::Yaml(_))
    ));
}

#[test]
fn plans_are_selected() {
    let table = parse_plan_metadata(PLANS).unwrap();
    let output = "warn\n /p/plan-01-readonly \n\n/p/plan-02-skips\n/p/plan-03-fresh\n/p/plan-05-ostree\n";
    let listed = plans_listed(output);
    assert_eq!(listed.len(), 4);
    assert_eq!(listed[0], "/p/plan-01-readonly");
    let select = |filters: &[&str], composefs_backend, uki| {
        let selection = Selection {
            filters: filters.iter().map(|s| s.to_string()).collect(),
            composefs_backend,
            uki,
        };
        select_plans(&listed, &selection, &table)
    };
    assert_eq!(
        select(&[], false, false),
        ["/p/plan-01-readonly", "/p/plan-02-skips", "/p/plan-03-fresh"]
    );
    assert_eq!(
        select(&[], true, true),
        ["/p/plan-01-readonly", "/p/plan-05-ostree"]
    );
    assert_eq!(select(&["02", "03"], false, true), ["/p/plan-02-skips"]);
    assert!(select(&["nothing"], true, false).is_empty());

    let fresh = select(&["03"], false, false);
    assert!(fresh_install_selected(&fresh, &table));
    assert_eq!(connection_step(true, &fresh, &table), ConnectionStep::Resolve);
    assert_eq!(connection_step(false, &fresh, &table), ConnectionStep::Missing);
    let plain = select(&["01"], false, false);
    assert_eq!(connection_step(false, &plain, &table), ConnectionStep::Without);
    let tests = plan_tests(&fresh, "abcdefgh", &table);
    assert_eq!(tests[0].vm_name, "bootc-tmt-abcdefgh-p-plan-03-fresh");
    assert!(tests[0].fresh_install_disk);
}

#[test]
fn written_plans_are_read() {
    let files = vec![
        file(
            "test-01-flags.nu",
            "# number: 1\n# extra:\n#   fixme_skip_if_uki: true\n#   skip_if_ostree: true\n# tmt:\n#   summary: Flags\n",
        ),
        file("test-02-plain.nu", "# number: 2\n# tmt:\n#   summary: Plain\n"),
        file(
            "test-03-disk.sh",
            "# number: 3\n# extra:\n#   fresh_install_disk: true\n#   fixme_skip_if_composefs: true\n#   try_bind_storage: true\n",
        ),
    ];
    let existing = format!("summary: all\n{PLAN_MARKER_BEGIN}{PLAN_MARKER_END}");
    let generated = generate_integration(&files, &existing).unwrap();
    let table = parse_plan_metadata(&generated.integration).unwrap();
    assert_eq!(table.len(), 2);
    let none = PlanMetadata::default();
    assert_eq!(
        metadata_for(&table, "/tmt/plans/integration/plan-01-flags"),
        PlanMetadata {
            skip_if_uki: true,
            skip_if_ostree: true,
            ..none
        }
    );
    assert_eq!(metadata_for(&table, "/x/plan-02-plain"), none);
    assert_eq!(
        metadata_for(&table, "/x/plan-03-disk"),
        PlanMetadata {
            fresh_install_disk: true,
            skip_if_composefs: true,
            try_bind_storage: true,
            ..none
        }
    );
}

#[test]
fn order_of_the_table_does_not_matter() {
    let table = parse_plan_metadata(PLANS).unwrap();
    let mut reversed = parse_plan_metadata(PLANS).unwrap();
    reversed.reverse();
    for plan in ["/p/plan-01-readonly", "/p/plan-02-skips", "/p/plan-03-fresh", "/p/x"] {
        assert_eq!(metadata_for(&table, plan), metadata_for(&reversed, plan));
    }
}

#[test]
fn runs_are_planned() {
    let table = parse_plan_metadata(PLANS).unwrap();
    let selection = |filter: &str| Selection {
        filters: vec![filter.to_string()],
        composefs_backend: false,
        uki: false,
    };
    let listing = "/p/plan-01-readonly\n/p/plan-03-fresh\n";
    let plan = |filter, given| plan_run(listing, &selection(filter), &table, given, "abcdefgh");
    assert!(matches!(plan("nothing", false), RunPlan::NoPlans));
    assert!(matches!(plan("/p", false), RunPlan::MissingConnection));
    match plan("/p", true) {
        RunPlan::Tests(tests) => {
            assert_eq!(tests.len(), 2);
            assert_ne!(tests[0].vm_name, tests[1].vm_name);
            assert!(tests[1].fresh_install_disk);
        }
        other => panic!("unexpected plan {other:?}"),
    }
    assert!(matches!(plan("01", false), RunPlan::Tests(_)));
}
