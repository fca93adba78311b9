//! Laws of the generated documents: what they say of each test, key by key.

use vstd::prelude::*;

use crate::text::{
    contains, decimal, is_digit, law_decimal_is_digits, law_split_once, lemma_find, lines,
    occurs_at, split_once, strip_prefix, trim_start, Class,
};
use crate::tmt::integration::{
    arranged, check_integration, copied, discover, display_name, documents, file_step, flagged,
    goes_before, is_file_error, is_generated, is_order, is_sort_of, law_sort_is_unique,
    lemma_text_less_asymmetric, lists_positions, numbered, own_entries, plan_entry, plan_line,
    plans_entries, plans_section, spaced, splice, stem, test_command, test_entry, test_of,
    tests_content, tests_entries, tests_of, text_less, FileStep, Generated, IntegrationError,
    OutOfDate, Spliced, TestFile, TestView,
};
use crate::tmt::metadata::{metadata_outcome, MetadataError, MetadataOutcome};
use crate::tmt::plans::{lemma_entry_of_with_entry, lemma_plans_entries, plan_key};
use crate::yaml::{entry, with_entry, yaml_rendered, Yaml};

verus! {

// ---------------------------------------------------------------------------
// The documents
// ---------------------------------------------------------------------------

/// The number and the name of a test, as they stand in the keys: the number takes two digits at
/// least.
pub open spec fn number_and_name(test: TestView) -> Seq<char> {
    (if test.number < 10 {
        seq!['0']
    } else {
        seq![]
    }) + decimal(test.number) + seq!['-'] + test.name
}

/// The key of a test or plan is its prefix, its number with two digits at least, and its name.
pub proof fn law_numbered(prefix: Seq<char>, test: TestView)
    ensures
        numbered(prefix, test) == prefix + number_and_name(test),
{
    let d = decimal(test.number);
    reveal_strlit("-");
    assert(test.number < 10 ==> d.len() == 1);
    if test.number >= 10 {
        assert(d == decimal(test.number / 10).push(crate::text::digit_char(test.number % 10)));
        law_decimal_is_digits(test.number / 10);
        assert(d.len() >= 2);
    } else {
        assert(Seq::new(1, |i: int| '0') =~= seq!['0']);
    }
    assert(numbered(prefix, test) =~= prefix + number_and_name(test));
}

/// The keys that are copied from the metadata of a test into its plan.
pub open spec fn is_copied_key(key: Seq<char>) -> bool {
    key == "summary"@ || key == "enabled"@ || key == "adjust"@
}

/// What a plan says under the key of a flag.
pub open spec fn shown_flag(set: bool) -> Option<Yaml> {
    if set {
        Some(Yaml::Bool(true))
    } else {
        None
    }
}

/// What entries say after a value was copied.
proof fn lemma_copied(
    entries: Seq<(Yaml, Yaml)>,
    from: Seq<(Yaml, Yaml)>,
    key: Seq<char>,
    other: Seq<char>,
)
    ensures
        entry(copied(entries, from, key), other) == if other == key && entry(from, key) is Some {
            entry(from, key)
        } else {
            entry(entries, other)
        },
{
    if entry(from, key) is Some {
        lemma_entry_of_with_entry(entries, key, entry(from, key)->0, other);
    }
}

/// What entries say after a flag was set.
proof fn lemma_flagged(entries: Seq<(Yaml, Yaml)>, set: bool, key: Seq<char>, other: Seq<char>)
    ensures
        entry(flagged(entries, set, key), other) == if set && other == "extra-"@ + key {
            Some(Yaml::Bool(true))
        } else {
            entry(entries, other)
        },
{
    if set {
        lemma_entry_of_with_entry(entries, "extra-"@ + key, Yaml::Bool(true), other);
    }
}

/// The keys of a plan all differ.
proof fn lemma_plan_keys()
    ensures
        "extra-"@ + "try_bind_storage"@ == "extra-try_bind_storage"@,
        "extra-"@ + "fixme_skip_if_composefs"@ == "extra-fixme_skip_if_composefs"@,
        "extra-"@ + "skip_if_ostree"@ == "extra-skip_if_ostree"@,
        "extra-"@ + "fixme_skip_if_uki"@ == "extra-fixme_skip_if_uki"@,
        "extra-"@ + "fresh_install_disk"@ == "extra-fresh_install_disk"@,
        "summary"@.len() == 7,
        "enabled"@.len() == 7,
        "summary"@ != "enabled"@,
        "adjust"@.len() == 6,
        "discover"@.len() == 8,
        "extra-try_bind_storage"@.len() == 22,
        "extra-fixme_skip_if_composefs"@.len() == 29,
        "extra-skip_if_ostree"@.len() == 20,
        "extra-fixme_skip_if_uki"@.len() == 23,
        "extra-fresh_install_disk"@.len() == 24,
{
    reveal_strlit("extra-");
    reveal_strlit("try_bind_storage");
    reveal_strlit("fixme_skip_if_composefs");
    reveal_strlit("fixme_skip_if_uki");
    reveal_strlit("skip_if_ostree");
    reveal_strlit("fresh_install_disk");
    reveal_strlit("extra-try_bind_storage");
    reveal_strlit("extra-fixme_skip_if_composefs");
    reveal_strlit("extra-fixme_skip_if_uki");
    reveal_strlit("extra-skip_if_ostree");
    reveal_strlit("extra-fresh_install_disk");
    reveal_strlit("summary");
    reveal_strlit("enabled");
    reveal_strlit("adjust");
    reveal_strlit("discover");
    assert("summary"@[0] != "enabled"@[0]);
    assert("extra-"@ + "try_bind_storage"@ =~= "extra-try_bind_storage"@);
    assert("extra-"@ + "fixme_skip_if_composefs"@ =~= "extra-fixme_skip_if_composefs"@);
    assert("extra-"@ + "skip_if_ostree"@ =~= "extra-skip_if_ostree"@);
    assert("extra-"@ + "fixme_skip_if_uki"@ =~= "extra-fixme_skip_if_uki"@);
    assert("extra-"@ + "fresh_install_disk"@ =~= "extra-fresh_install_disk"@);
}

/// The entries of the plan of a test.
pub open spec fn plan_says(test: TestView, plan: Seq<(Yaml, Yaml)>) -> bool {
    let tmt = own_entries(test.tmt);
    // What the metadata of the test says is kept.
    &&& entry(plan, "summary"@) == entry(tmt, "summary"@)
    &&& entry(plan, "enabled"@) == entry(tmt, "enabled"@)
    &&& entry(plan, "adjust"@) == entry(tmt, "adjust"@)
    // The flags of the test are there where they are set.
    &&& entry(plan, "extra-try_bind_storage"@) == shown_flag(test.try_bind_storage)
    &&& entry(plan, "extra-fixme_skip_if_composefs"@) == shown_flag(test.skip_if_composefs)
    &&& entry(plan, "extra-skip_if_ostree"@) == shown_flag(test.skip_if_ostree)
    &&& entry(plan, "extra-fixme_skip_if_uki"@) == shown_flag(test.skip_if_uki)
    &&& entry(plan, "extra-fresh_install_disk"@) == shown_flag(test.fresh_install_disk)
    // The plan finds its test, and no other.
    &&& entry(plan, "discover"@) matches Some(Yaml::Mapping(d)) && {
        &&& d.len() == 2
        &&& entry(d, "how"@) == Some(Yaml::Text("fmf"@))
        &&& entry(d, "test"@) == Some(
            Yaml::Sequence(
                seq![Yaml::Text("/tmt/tests/tests/test-"@ + number_and_name(test))],
            ),
        )
    }
    // There is nothing else.
    &&& forall|key: Seq<char>| #[trigger]
        entry(plan, key) is Some ==> {
            ||| is_copied_key(key)
            ||| key == "discover"@
            ||| key == "extra-try_bind_storage"@
            ||| key == "extra-fixme_skip_if_composefs"@
            ||| key == "extra-skip_if_ostree"@
            ||| key == "extra-fixme_skip_if_uki"@
            ||| key == "extra-fresh_install_disk"@
        }
}

/// What the plan of a test says under any key.
proof fn lemma_plan_key(test: TestView, key: Seq<char>)
    ensures
        plan_entry(test) is Mapping,
        entry(plan_entry(test)->Mapping_0, key) == {
            let tmt = own_entries(test.tmt);
            if is_copied_key(key) {
                entry(tmt, key)
            } else if key == "discover"@ {
                Some(discover(test))
            } else if key == "extra-try_bind_storage"@ {
                shown_flag(test.try_bind_storage)
            } else if key == "extra-fixme_skip_if_composefs"@ {
                shown_flag(test.skip_if_composefs)
            } else if key == "extra-skip_if_ostree"@ {
                shown_flag(test.skip_if_ostree)
            } else if key == "extra-fixme_skip_if_uki"@ {
                shown_flag(test.skip_if_uki)
            } else if key == "extra-fresh_install_disk"@ {
                shown_flag(test.fresh_install_disk)
            } else {
                None
            }
        },
{
    lemma_plan_keys();
    let tmt = own_entries(test.tmt);
    let none: Seq<(Yaml, Yaml)> = seq![];
    assert(entry(none, key) is None);
    let a1 = copied(none, tmt, "summary"@);
    let a2 = copied(a1, tmt, "enabled"@);
    let a3 = with_entry(a2, "discover"@, discover(test));
    let b = copied(a3, tmt, "adjust"@);
    let c = flagged(b, test.try_bind_storage, "try_bind_storage"@);
    let d = flagged(c, test.skip_if_composefs, "fixme_skip_if_composefs"@);
    let e = flagged(d, test.skip_if_ostree, "skip_if_ostree"@);
    let f = flagged(e, test.skip_if_uki, "fixme_skip_if_uki"@);
    lemma_copied(none, tmt, "summary"@, key);
    lemma_copied(a1, tmt, "enabled"@, key);
    lemma_entry_of_with_entry(a2, "discover"@, discover(test), key);
    lemma_copied(a3, tmt, "adjust"@, key);
    lemma_flagged(b, test.try_bind_storage, "try_bind_storage"@, key);
    lemma_flagged(c, test.skip_if_composefs, "fixme_skip_if_composefs"@, key);
    lemma_flagged(d, test.skip_if_ostree, "skip_if_ostree"@, key);
    lemma_flagged(e, test.skip_if_uki, "fixme_skip_if_uki"@, key);
    lemma_flagged(f, test.fresh_install_disk, "fresh_install_disk"@, key);
}

/// The plan of every test is there, under its number and name, and says of it what its metadata
/// says: whether it is enabled, its summary, its adjustments and its flags, where to find it, and
/// nothing else. Of tests that share a number and a name the last counts.
pub proof fn law_every_test_has_its_plan(tests: Seq<TestView>, i: int)
    requires
        0 <= i < tests.len(),
        forall|j: int|
            i < j < tests.len() ==> number_and_name(#[trigger] tests[j]) != number_and_name(
                tests[i],
            ),
    ensures
        entry(plans_entries(tests), "/plan-"@ + number_and_name(tests[i])) matches Some(
            Yaml::Mapping(plan),
        ) && plan_says(tests[i], plan),
{
    let test = tests[i];
    law_numbered("/plan-"@, test);
    law_numbered("/tmt/tests/tests/test-"@, test);
    assert forall|j: int| i < j < tests.len() implies plan_key(#[trigger] tests[j]) != plan_key(
        tests[i],
    ) by {
        law_numbered("/plan-"@, tests[j]);
        let n = "/plan-"@.len() as int;
        assert(plan_key(tests[j]).skip(n) =~= number_and_name(tests[j]));
        assert(plan_key(tests[i]).skip(n) =~= number_and_name(tests[i]));
    }
    lemma_plans_entries(tests, i);
    lemma_plan_keys();
    let plan = plan_entry(test)->Mapping_0;
    lemma_plan_key(test, "summary"@);
    lemma_plan_key(test, "enabled"@);
    lemma_plan_key(test, "adjust"@);
    lemma_plan_key(test, "discover"@);
    lemma_plan_key(test, "extra-try_bind_storage"@);
    lemma_plan_key(test, "extra-fixme_skip_if_composefs"@);
    lemma_plan_key(test, "extra-skip_if_ostree"@);
    lemma_plan_key(test, "extra-fixme_skip_if_uki"@);
    lemma_plan_key(test, "extra-fresh_install_disk"@);
    assert forall|key: Seq<char>| #[trigger] entry(plan, key) is Some implies {
        ||| is_copied_key(key)
        ||| key == "discover"@
        ||| key == "extra-try_bind_storage"@
        ||| key == "extra-fixme_skip_if_composefs"@
        ||| key == "extra-skip_if_ostree"@
        ||| key == "extra-fixme_skip_if_uki"@
        ||| key == "extra-fresh_install_disk"@
    } by {
        lemma_plan_key(test, key);
    }
    reveal_strlit("how");
    reveal_strlit("test");
    assert("how"@.len() != "test"@.len());
    let none: Seq<(Yaml, Yaml)> = seq![];
    let how = with_entry(none, "how"@, Yaml::Text("fmf"@));
    let found = Yaml::Sequence(seq![Yaml::Text(numbered("/tmt/tests/tests/test-"@, test))]);
    lemma_entry_of_with_entry(none, "how"@, Yaml::Text("fmf"@), "how"@);
    lemma_entry_of_with_entry(none, "how"@, Yaml::Text("fmf"@), "test"@);
    lemma_entry_of_with_entry(how, "test"@, found, "how"@);
    lemma_entry_of_with_entry(how, "test"@, found, "test"@);
    assert(entry(none, "test"@) is None);
    assert(with_entry(how, "test"@, found).len() == 2);
}

/// Every test is in `tests.fmf`, under its number and name, with its command, and with all that its
/// metadata says beside that. Of tests that share a number and a name the last counts.
pub proof fn law_every_test_has_its_entry(tests: Seq<TestView>, i: int)
    requires
        0 <= i < tests.len(),
        forall|j: int|
            i < j < tests.len() ==> number_and_name(#[trigger] tests[j]) != number_and_name(
                tests[i],
            ),
    ensures
        entry(tests_entries(tests), "/test-"@ + number_and_name(tests[i])) matches Some(
            Yaml::Mapping(m),
        ) && entry(m, "test"@) == Some(Yaml::Text(tests[i].test_command)) && forall|key: Seq<char>|
            key != "test"@ ==> #[trigger] entry(m, key) == entry(own_entries(tests[i].tmt), key),
    decreases tests.len(),
{
    let before = tests.drop_last();
    let last = tests.last();
    let key = "/test-"@ + number_and_name(tests[i]);
    law_numbered("/test-"@, last);
    lemma_entry_of_with_entry(
        tests_entries(before),
        numbered("/test-"@, last),
        test_entry(last),
        key,
    );
    if i < before.len() {
        assert(tests[tests.len() - 1] == last);
        assert forall|j: int| i < j < before.len() implies number_and_name(#[trigger] before[j])
            != number_and_name(before[i]) by {
            assert(before[j] == tests[j]);
        }
        law_every_test_has_its_entry(before, i);
        let n = "/test-"@.len() as int;
        assert(key.skip(n) =~= number_and_name(tests[i]));
        assert(numbered("/test-"@, last).skip(n) =~= number_and_name(last));
    } else {
        let own = own_entries(last.tmt);
        let command = Yaml::Text(last.test_command);
        lemma_entry_of_with_entry(own, "test"@, command, "test"@);
        let m = with_entry(own, "test"@, command);
        assert forall|k: Seq<char>| k != "test"@ implies #[trigger] entry(m, k) == entry(own, k) by {
            lemma_entry_of_with_entry(own, "test"@, command, k);
        }
    }
}

// ---------------------------------------------------------------------------
// From a file to its test
// ---------------------------------------------------------------------------

/// A file is a test exactly if its name begins with `test-` and ends in `.nu`, `.sh` or `.py`.
pub proof fn law_test_files(filename: Seq<char>, t: Seq<char>)
    ensures
        stem("test-"@ + t + ".nu"@) == Some(t),
        stem("test-"@ + t + ".sh"@) == Some(t),
        stem("test-"@ + t + ".py"@) == Some(t),
        stem(filename) matches Some(s) ==> filename == "test-"@ + s + ".nu"@ || filename == "test-"@
            + s + ".sh"@ || filename == "test-"@ + s + ".py"@,
{
    reveal_strlit("test-");
    reveal_strlit(".nu");
    reveal_strlit(".sh");
    reveal_strlit(".py");
    lemma_stem_of(t, ".nu"@);
    lemma_stem_of(t, ".sh"@);
    lemma_stem_of(t, ".py"@);
    if stem(filename) is Some {
        let s = stem(filename)->0;
        let rest = strip_prefix(filename, "test-"@)->0;
        assert("test-"@ =~= filename.subrange(0, 5));
        assert(filename =~= "test-"@ + rest);
        let end = rest.subrange(rest.len() - 3, rest.len() as int);
        assert(rest =~= s + end);
        assert(filename =~= "test-"@ + s + end);
    }
}

/// The stem of a name with a given ending.
proof fn lemma_stem_of(t: Seq<char>, end: Seq<char>)
    requires
        end == ".nu"@ || end == ".sh"@ || end == ".py"@,
    ensures
        stem("test-"@ + t + end) == Some(t),
{
    reveal_strlit("test-");
    reveal_strlit(".nu");
    reveal_strlit(".sh");
    reveal_strlit(".py");
    let name = "test-"@ + t + end;
    assert("test-"@ =~= name.subrange(0, 5));
    let rest = name.skip(5);
    assert(rest =~= t + end);
    let tail = rest.subrange(rest.len() - 3, rest.len() as int);
    assert(tail =~= end);
    assert(tail[1] == end[1]);
    assert(rest.take(rest.len() - 3) =~= t);
}

/// The name of a test is what stands behind its number, and its command runs its file with the
/// program for its ending: `nu`, `bash` or `python3`. Its number and its metadata are those of the
/// file, and each of its flags is set exactly if its own key is true.
pub proof fn law_test_of_a_file(digits: Seq<char>, name: Seq<char>, number: nat, extra: Yaml, tmt: Yaml)
    requires
        forall|i: int| 0 <= i < digits.len() ==> '0' <= #[trigger] digits[i] && digits[i] <= '9',
    ensures
        ({
            let t = digits + seq!['-'] + name;
            let nu = test_of("test-"@ + t + ".nu"@, number, extra, tmt);
            let sh = test_of("test-"@ + t + ".sh"@, number, extra, tmt);
            let py = test_of("test-"@ + t + ".py"@, number, extra, tmt);
            &&& nu.name == name && sh.name == name && py.name == name
            &&& nu.test_command == "nu booted/test-"@ + t + ".nu"@
            &&& sh.test_command == "bash booted/test-"@ + t + ".sh"@
            &&& py.test_command == "python3 booted/test-"@ + t + ".py"@
            &&& nu.number == number && sh.number == number && py.number == number
            &&& nu.tmt == tmt && sh.tmt == tmt && py.tmt == tmt
        }),
        forall|filename: Seq<char>|
            {
                let test = #[trigger] test_of(filename, number, extra, tmt);
                &&& test.try_bind_storage == is_set(extra, "try_bind_storage"@)
                &&& test.skip_if_composefs == is_set(extra, "fixme_skip_if_composefs"@)
                &&& test.skip_if_ostree == is_set(extra, "skip_if_ostree"@)
                &&& test.skip_if_uki == is_set(extra, "fixme_skip_if_uki"@)
                &&& test.fresh_install_disk == is_set(extra, "fresh_install_disk"@)
            },
{
    let t = digits + seq!['-'] + name;
    lemma_stem_of(t, ".nu"@);
    lemma_stem_of(t, ".sh"@);
    lemma_stem_of(t, ".py"@);
    reveal_strlit("-");
    reveal_strlit(".nu");
    reveal_strlit(".sh");
    reveal_strlit(".py");
    reveal_strlit("test-");
    reveal_strlit("nu booted/");
    reveal_strlit("bash booted/");
    reveal_strlit("python3 booted/");
    reveal_strlit("nu booted/test-");
    reveal_strlit("bash booted/test-");
    reveal_strlit("python3 booted/test-");
    lemma_display_name(digits, name);
    let nu = "test-"@ + t + ".nu"@;
    let sh = "test-"@ + t + ".sh"@;
    let py = "test-"@ + t + ".py"@;
    lemma_ending("test-"@ + t, ".nu"@);
    lemma_ending("test-"@ + t, ".sh"@);
    lemma_ending("test-"@ + t, ".py"@);
    assert(".nu"@[1] == 'n' && ".sh"@[1] == 's' && ".py"@[1] == 'p');
    assert(test_command(nu) =~= "nu booted/test-"@ + t + ".nu"@);
    assert(test_command(sh) =~= "bash booted/test-"@ + t + ".sh"@);
    assert(test_command(py) =~= "python3 booted/test-"@ + t + ".py"@);
}

/// A text ends as it does.
proof fn lemma_ending(s: Seq<char>, end: Seq<char>)
    requires
        end == ".nu"@ || end == ".sh"@ || end == ".py"@,
    ensures
        ".nu"@.is_suffix_of(s + end) == (end == ".nu"@),
        ".sh"@.is_suffix_of(s + end) == (end == ".sh"@),
        ".py"@.is_suffix_of(s + end) == (end == ".py"@),
{
    reveal_strlit(".nu");
    reveal_strlit(".sh");
    reveal_strlit(".py");
    let whole = s + end;
    let tail = whole.subrange(whole.len() - 3, whole.len() as int);
    assert(tail =~= end);
}

/// The name behind a number.
proof fn lemma_display_name(digits: Seq<char>, name: Seq<char>)
    requires
        forall|i: int| 0 <= i < digits.len() ==> '0' <= #[trigger] digits[i] && digits[i] <= '9',
    ensures
        display_name(digits + seq!['-'] + name) == name,
{
    reveal_strlit("-");
    let dash = "-"@;
    let t = digits + seq!['-'] + name;
    assert(dash =~= seq!['-']);
    law_split_once(t, dash);
    assert(t == (digits + dash) + name);
    let (a, b) = split_once(t, dash)->0;
    let n = digits.len() as int;
    assert(t[n] == '-');
    assert((a + dash + b)[a.len() as int] == '-');
    if a.len() < n {
        assert(t[a.len() as int] == digits[a.len() as int]);
        assert(false);
    } else if a.len() > n {
        assert(t.skip(n).take(1) =~= dash);
        assert(t.skip(n).len() >= 1);
        assert(false);
    }
    assert(t.take(n) =~= digits);
    assert((a + dash + b).take(n) =~= a);
    assert(t.skip(n + 1) =~= name);
    assert((a + dash + b).skip(n + 1) =~= b);
    assert forall|i: int| 0 <= i < a.len() implies is_digit(#[trigger] a[i]) by {
        assert(a[i] == digits[i]);
    }
}

/// Whether a mapping holds `true` under a key.
pub open spec fn is_set(extra: Yaml, key: Seq<char>) -> bool {
    extra.as_mapping() matches Some(entries) && (entry(entries, key) matches Some(v) && v.as_bool()
        == Some(true))
}

/// A name without a number in front is kept whole.
pub proof fn law_unnumbered_names_are_kept(t: Seq<char>)
    requires
        t.len() > 0,
        !('0' <= t[0] && t[0] <= '9'),
        t[0] != '-',
    ensures
        display_name(t) == t,
{
    reveal_strlit("-");
    law_split_once(t, "-"@);
    match split_once(t, "-"@) {
        Some((a, b)) => {
            if a.len() == 0 {
                assert(t[0] == '-') by {
                    assert(t == a + "-"@ + b);
                }
            } else {
                assert(a[0] == t[0]) by {
                    assert(t == a + "-"@ + b);
                }
                assert(!is_digit(a[0]));
            }
        },
        None => {},
    }
}

/// Every test file with metadata gives one test, in the order of the files, and other files give
/// none; the first test file without sound metadata is told of.
pub proof fn law_every_file_gives_its_test(files: Seq<TestFile>)
    ensures
        match tests_of(files) {
            Ok(tests) => {
                &&& tests.len() == files.filter(|f: TestFile| stem(f.name@) is Some).len()
                &&& forall|i: int|
                    0 <= i < files.len() && stem((#[trigger] files[i]).name@) is Some ==> (
                    metadata_outcome(files[i].content@) matches MetadataOutcome::Found {
                        number,
                        extra,
                        tmt,
                    } && tests.contains(test_of(files[i].name@, number, extra, tmt)))
            },
            Err(i) => {
                &&& 0 <= i < files.len()
                &&& stem(files[i].name@) is Some
                &&& !(metadata_outcome(files[i].content@) is Found)
                &&& forall|k: int|
                    0 <= k < i && stem((#[trigger] files[k]).name@) is Some ==> metadata_outcome(
                        files[k].content@,
                    ) is Found
            },
        },
    decreases files.len(),
{
    reveal(Seq::filter);
    if files.len() > 0 {
        let head = files.drop_last();
        let last = files.last();
        law_every_file_gives_its_test(head);
        assert(forall|i: int| 0 <= i < head.len() ==> head[i] == files[i]);
        match tests_of(head) {
            Ok(before) => {
                if tests_of(files) is Ok {
                    let tests = tests_of(files)->Ok_0;
                    assert forall|i: int|
                        0 <= i < files.len() && stem((#[trigger] files[i]).name@) is Some implies (
                    metadata_outcome(files[i].content@) matches MetadataOutcome::Found {
                        number,
                        extra,
                        tmt,
                    } && tests.contains(test_of(files[i].name@, number, extra, tmt))) by {
                        if i < head.len() {
                            assert(stem(head[i].name@) is Some);
                            let m = metadata_outcome(files[i].content@);
                            let t = test_of(
                                files[i].name@,
                                m->number,
                                m->extra,
                                m->tmt,
                            );
                            let j = choose|j: int| 0 <= j < before.len() && before[j] == t;
                            assert(tests[j] == t);
                        } else {
                            assert(tests[before.len() as int] == tests.last());
                        }
                    }
                } else {
                    assert(files[files.len() - 1] == last);
                    assert forall|k: int|
                        0 <= k < files.len() - 1 && stem((#[trigger] files[k]).name@) is Some implies metadata_outcome(
                        files[k].content@,
                    ) is Found by {
                        assert(stem(head[k].name@) is Some);
                    }
                }
            },
            Err(i) => {
                assert forall|k: int| 0 <= k < i && stem((#[trigger] files[k]).name@) is Some implies metadata_outcome(
                    files[k].content@,
                ) is Found by {
                    assert(stem(head[k].name@) is Some);
                }
            },
        }
    }
}

// ---------------------------------------------------------------------------
// The order
// ---------------------------------------------------------------------------

/// Texts are ordered by the first character in which they differ; a text comes before those that
/// begin with it, and not before itself.
pub proof fn law_text_order(p: Seq<char>, a: char, x: Seq<char>, b: char, y: Seq<char>)
    requires
        a != b,
    ensures
        text_less(p.push(a) + x, p.push(b) + y) == (a < b),
        text_less(p, p.push(a) + x),
        !text_less(p.push(a) + x, p),
        !text_less(p, p),
    decreases p.len(),
{
    let s = p.push(a) + x;
    let t = p.push(b) + y;
    if p.len() == 0 {
        assert(s[0] == a && t[0] == b);
    } else {
        let q = p.drop_first();
        law_text_order(q, a, x, b, y);
        assert(s[0] == p[0] && t[0] == p[0]);
        assert(s.drop_first() =~= q.push(a) + x);
        assert(t.drop_first() =~= q.push(b) + y);
    }
}

// ---------------------------------------------------------------------------
// The texts
// ---------------------------------------------------------------------------

/// A line is added to a document with its ending, and behind a blank line if it begins a test and
/// is not the first.
pub proof fn law_tests_are_spaced(ls: Seq<Seq<char>>, rest: Seq<char>, line: Seq<char>)
    ensures
        spaced(seq![], "/test-"@, false) == Seq::<char>::empty(),
        ls.len() > 0 ==> spaced(ls.push("/test-"@ + rest), "/test-"@, false) == spaced(
            ls,
            "/test-"@,
            false,
        ) + "\n/test-"@ + rest + "\n"@,
        spaced(seq!["/test-"@ + rest], "/test-"@, false) == "/test-"@ + rest + "\n"@,
        !"/test-"@.is_prefix_of(line) ==> spaced(ls.push(line), "/test-"@, false) == spaced(
            ls,
            "/test-"@,
            false,
        ) + line + "\n"@,
{
    reveal_strlit("\n");
    reveal_strlit("/test-");
    reveal_strlit("\n/test-");
    let entry_line = "/test-"@ + rest;
    assert("/test-"@ =~= entry_line.subrange(0, 6));
    let none: Seq<Seq<char>> = seq![];
    assert(spaced(none, "/test-"@, false) =~= Seq::<char>::empty());
    assert(ls.push(entry_line).drop_last() =~= ls);
    assert(ls.push(line).drop_last() =~= ls);
    assert(seq![entry_line].drop_last() =~= none);
    let before = spaced(ls, "/test-"@, false);
    if ls.len() > 0 {
        lemma_spaced_nonempty(ls, "/test-"@, false);
        assert(spaced(ls.push(entry_line), "/test-"@, false) =~= before + "\n/test-"@ + rest
            + "\n"@);
    }
    assert(spaced(seq![entry_line], "/test-"@, false) =~= entry_line + "\n"@);
    if !"/test-"@.is_prefix_of(line) {
        assert(spaced(ls.push(line), "/test-"@, false) =~= before + line + "\n"@);
    }
}

/// Lines are not shown as nothing.
proof fn lemma_spaced_nonempty(ls: Seq<Seq<char>>, marker: Seq<char>, plans: bool)
    requires
        ls.len() > 0,
    ensures
        spaced(ls, marker, plans).len() > 0,
{
    reveal_strlit("\n");
    assert(spaced(ls, marker, plans).last() == '\n');
}

/// The plans are spaced as the tests are, and a test in a list goes six in.
pub proof fn law_plans_are_spaced(ls: Seq<Seq<char>>, rest: Seq<char>, line: Seq<char>)
    ensures
        ls.len() > 0 ==> spaced(ls.push("/plan-"@ + rest), "/plan-"@, true) == spaced(
            ls,
            "/plan-"@,
            true,
        ) + "\n/plan-"@ + rest + "\n"@,
        spaced(seq!["/plan-"@ + rest], "/plan-"@, true) == "/plan-"@ + rest + "\n"@,
        spaced(ls.push("    - /tmt/tests/"@ + rest), "/plan-"@, true) == spaced(
            ls,
            "/plan-"@,
            true,
        ) + "      - /tmt/tests/"@ + rest + "\n"@,
        !"/plan-"@.is_prefix_of(line) && !"    - /tmt/tests/"@.is_prefix_of(line) ==> spaced(
            ls.push(line),
            "/plan-"@,
            true,
        ) == spaced(ls, "/plan-"@, true) + line + "\n"@,
{
    reveal_strlit("\n");
    reveal_strlit("/plan-");
    reveal_strlit("\n/plan-");
    reveal_strlit("    - /tmt/tests/");
    reveal_strlit("      - /tmt/tests/");
    reveal_strlit("      ");
    let entry_line = "/plan-"@ + rest;
    assert("/plan-"@ =~= entry_line.subrange(0, 6));
    assert(!"    - /tmt/tests/"@.is_prefix_of(entry_line)) by {
        assert(entry_line[0] == '/');
        if "    - /tmt/tests/"@.is_prefix_of(entry_line) {
            assert(entry_line.subrange(0, "    - /tmt/tests/"@.len() as int)[0] == ' ');
        }
    }
    let none: Seq<Seq<char>> = seq![];
    assert(spaced(none, "/plan-"@, true) =~= Seq::<char>::empty());
    assert(ls.push(entry_line).drop_last() =~= ls);
    assert(ls.push(line).drop_last() =~= ls);
    assert(seq![entry_line].drop_last() =~= none);
    let before = spaced(ls, "/plan-"@, true);
    if ls.len() > 0 {
        lemma_spaced_nonempty(ls, "/plan-"@, true);
        assert(spaced(ls.push(entry_line), "/plan-"@, true) =~= before + "\n/plan-"@ + rest
            + "\n"@);
    }
    assert(spaced(seq![entry_line], "/plan-"@, true) =~= entry_line + "\n"@);
    let found = "    - /tmt/tests/"@ + rest;
    assert("    - /tmt/tests/"@ =~= found.subrange(0, 17));
    assert(!"/plan-"@.is_prefix_of(found)) by {
        if "/plan-"@.is_prefix_of(found) {
            assert(found.subrange(0, 6)[0] == '/');
        }
    }
    reveal_with_fuel(trim_start, 6);
    let bare = found.skip(4);
    assert(found.drop_first().drop_first().drop_first().drop_first() =~= bare);
    assert(bare[0] == '-');
    assert(trim_start(found, Class::White) =~= bare);
    assert(plan_line(found) =~= "      - /tmt/tests/"@ + rest);
    assert(ls.push(found).drop_last() =~= ls);
    assert(spaced(ls.push(found), "/plan-"@, true) =~= before + "      - /tmt/tests/"@ + rest
        + "\n"@);
    if !"/plan-"@.is_prefix_of(line) && !"    - /tmt/tests/"@.is_prefix_of(line) {
        assert(spaced(ls.push(line), "/plan-"@, true) =~= before + line + "\n"@);
    }
}

/// Plans go between the first begin marker and the first end marker behind it, letter by letter;
/// without a begin marker, or without an end marker behind it, they go nowhere.
pub proof fn law_plans_go_between_the_markers(existing: Seq<char>, plans: Seq<char>)
    ensures
        match splice(existing, plans) {
            Spliced::Content(c) => exists|a: Seq<char>, old: Seq<char>, b: Seq<char>|
                {
                    &&& existing == #[trigger] (a + "# BEGIN GENERATED PLANS\n"@ + old
                        + "# END GENERATED PLANS\n"@ + b)
                    &&& c == a + "# BEGIN GENERATED PLANS\n"@ + plans
                        + "# END GENERATED PLANS\n"@ + b
                    &&& !contains(old, "# END GENERATED PLANS\n"@)
                    &&& !contains(a, "# BEGIN GENERATED PLANS\n"@)
                },
            Spliced::MissingBegin => !contains(
                existing,
                "# BEGIN GENERATED PLANS\n"@,
            ),
            Spliced::MissingEnd => exists|a: Seq<char>, b: Seq<char>|
                {
                    &&& existing == #[trigger] (a + "# BEGIN GENERATED PLANS\n"@ + b)
                    &&& !contains(a, "# BEGIN GENERATED PLANS\n"@)
                    &&& !contains(b, "# END GENERATED PLANS\n"@)
                },
        },
{
    let begin = "# BEGIN GENERATED PLANS\n"@;
    let end = "# END GENERATED PLANS\n"@;
    reveal_strlit("# BEGIN GENERATED PLANS\n");
    reveal_strlit("# END GENERATED PLANS\n");
    lemma_find(existing, begin, 0);
    if split_once(existing, begin) is Some {
        let (a, rest) = split_once(existing, begin)->0;
        lemma_find(rest, end, 0);
        assert(existing =~= a + begin + rest);
        if contains(a, begin) {
            let i = choose|i: int| occurs_at(a, begin, i);
            assert(existing.subrange(i, i + begin.len()) =~= a.subrange(i, i + begin.len()));
            assert(occurs_at(existing, begin, i));
        }
        if split_once(rest, end) is Some {
            let (old, b) = split_once(rest, end)->0;
            if contains(old, end) {
                let i = choose|i: int| occurs_at(old, end, i);
                assert(rest.subrange(i, i + end.len()) =~= old.subrange(i, i + end.len()));
                assert(occurs_at(rest, end, i));
            }
            assert(existing =~= a + begin + old + end + b);
        }
    }
}

// ---------------------------------------------------------------------------
// The order of the entries
// ---------------------------------------------------------------------------

/// The place of a key in a plan.
pub open spec fn key_rank(key: Seq<char>) -> int {
    if key == "summary"@ {
        0
    } else if key == "enabled"@ {
        1
    } else if key == "discover"@ {
        2
    } else if key == "adjust"@ {
        3
    } else if key == "extra-try_bind_storage"@ {
        4
    } else if key == "extra-fixme_skip_if_composefs"@ {
        5
    } else if key == "extra-skip_if_ostree"@ {
        6
    } else if key == "extra-fixme_skip_if_uki"@ {
        7
    } else if key == "extra-fresh_install_disk"@ {
        8
    } else {
        9
    }
}

/// Whether the keys of entries are in the order of a plan, all of them before a place.
pub open spec fn ranks_below(entries: Seq<(Yaml, Yaml)>, r: int) -> bool {
    &&& forall|i: int|
        0 <= i < entries.len() ==> (#[trigger] entries[i]).0 is Text && key_rank(
            entries[i].0->Text_0,
        ) < r
    &&& forall|i: int, j: int|
        0 <= i < j < entries.len() ==> key_rank((#[trigger] entries[i]).0->Text_0) < key_rank(
            (#[trigger] entries[j]).0->Text_0,
        )
}

/// An entry whose place is behind the others goes behind them.
proof fn lemma_rank_step(entries: Seq<(Yaml, Yaml)>, r: int, key: Seq<char>, v: Yaml, next: int)
    requires
        ranks_below(entries, r),
        r <= key_rank(key) < next,
    ensures
        ranks_below(with_entry(entries, key, v), next),
        ranks_below(entries, next),
{
    crate::tmt::plans::lemma_key_position(entries, key, 0);
    if crate::yaml::key_position(entries, key, 0) is Some {
        let i = crate::yaml::key_position(entries, key, 0)->0;
        assert(key_rank(entries[i].0->Text_0) < r);
    }
    let new = entries.push((Yaml::Text(key), v));
    assert(with_entry(entries, key, v) == new);
    assert forall|i: int, j: int| 0 <= i < j < new.len() implies key_rank(
        (#[trigger] new[i]).0->Text_0,
    ) < key_rank((#[trigger] new[j]).0->Text_0) by {
        assert(new[i] == entries[i]);
        if j < entries.len() {
            assert(new[j] == entries[j]);
        }
    }
}

/// The keys of a plan come in their order: its summary and whether it is enabled, where its test is,
/// its adjustments, then its flags.
pub proof fn law_plan_keys_in_order(test: TestView)
    ensures
        plan_entry(test) is Mapping,
        ranks_below(plan_entry(test)->Mapping_0, 9),
{
    lemma_plan_keys();
    let tmt = own_entries(test.tmt);
    let none: Seq<(Yaml, Yaml)> = seq![];
    let t = Yaml::Bool(true);
    let any = |key: Seq<char>|
        match entry(tmt, key) {
            Some(v) => v,
            None => t,
        };
    assert(ranks_below(none, 0));
    let a1 = copied(none, tmt, "summary"@);
    lemma_rank_step(none, 0, "summary"@, any("summary"@), 1);
    let a2 = copied(a1, tmt, "enabled"@);
    lemma_rank_step(a1, 1, "enabled"@, any("enabled"@), 2);
    let a3 = with_entry(a2, "discover"@, discover(test));
    lemma_rank_step(a2, 2, "discover"@, discover(test), 3);
    let b = copied(a3, tmt, "adjust"@);
    lemma_rank_step(a3, 3, "adjust"@, any("adjust"@), 4);
    let c = flagged(b, test.try_bind_storage, "try_bind_storage"@);
    lemma_rank_step(b, 4, "extra-try_bind_storage"@, t, 5);
    let d = flagged(c, test.skip_if_composefs, "fixme_skip_if_composefs"@);
    lemma_rank_step(c, 5, "extra-fixme_skip_if_composefs"@, t, 6);
    let e = flagged(d, test.skip_if_ostree, "skip_if_ostree"@);
    lemma_rank_step(d, 6, "extra-skip_if_ostree"@, t, 7);
    let f = flagged(e, test.skip_if_uki, "fixme_skip_if_uki"@);
    lemma_rank_step(e, 7, "extra-fixme_skip_if_uki"@, t, 8);
    lemma_rank_step(f, 8, "extra-fresh_install_disk"@, t, 9);
}

/// Tests that differ in number or name have an entry each, in their order, and there is no other, in
/// the one document and in the other.
pub proof fn law_entries_in_order(tests: Seq<TestView>)
    requires
        forall|i: int, j: int|
            0 <= i < j < tests.len() ==> number_and_name(#[trigger] tests[i]) != number_and_name(
                #[trigger] tests[j],
            ),
    ensures
        plans_entries(tests).len() == tests.len(),
        tests_entries(tests).len() == tests.len(),
        forall|i: int|
            0 <= i < tests.len() ==> (#[trigger] plans_entries(tests)[i]).0 == Yaml::Text(
                "/plan-"@ + number_and_name(tests[i]),
            ),
        forall|i: int|
            0 <= i < tests.len() ==> (#[trigger] tests_entries(tests)[i]).0 == Yaml::Text(
                "/test-"@ + number_and_name(tests[i]),
            ),
    decreases tests.len(),
{
    if tests.len() > 0 {
        let head = tests.drop_last();
        let last = tests.last();
        assert forall|i: int, j: int| 0 <= i < j < head.len() implies number_and_name(
            #[trigger] head[i],
        ) != number_and_name(#[trigger] head[j]) by {
            assert(head[i] == tests[i] && head[j] == tests[j]);
        }
        law_entries_in_order(head);
        law_numbered("/plan-"@, last);
        law_numbered("/test-"@, last);
        let plan_key = numbered("/plan-"@, last);
        let test_key = numbered("/test-"@, last);
        crate::tmt::plans::lemma_key_position(plans_entries(head), plan_key, 0);
        crate::tmt::plans::lemma_key_position(tests_entries(head), test_key, 0);
        let np = "/plan-"@.len() as int;
        let nt = "/test-"@.len() as int;
        if crate::yaml::key_position(plans_entries(head), plan_key, 0) is Some {
            let i = crate::yaml::key_position(plans_entries(head), plan_key, 0)->0;
            assert(head[i] == tests[i] && tests[tests.len() - 1] == last);
            assert(("/plan-"@ + number_and_name(tests[i])).skip(np) =~= number_and_name(tests[i]));
            assert(plan_key.skip(np) =~= number_and_name(last));
            assert(plans_entries(head)[i].0 == Yaml::Text(plan_key));
            assert(false);
        }
        if crate::yaml::key_position(tests_entries(head), test_key, 0) is Some {
            let i = crate::yaml::key_position(tests_entries(head), test_key, 0)->0;
            assert(head[i] == tests[i] && tests[tests.len() - 1] == last);
            assert(("/test-"@ + number_and_name(tests[i])).skip(nt) =~= number_and_name(tests[i]));
            assert(test_key.skip(nt) =~= number_and_name(last));
            assert(tests_entries(head)[i].0 == Yaml::Text(test_key));
            assert(false);
        }
        assert forall|i: int| 0 <= i < tests.len() implies (#[trigger] plans_entries(tests)[i]).0
            == Yaml::Text("/plan-"@ + number_and_name(tests[i])) by {
            if i < head.len() {
                assert(plans_entries(tests)[i] == plans_entries(head)[i]);
                assert(head[i] == tests[i]);
            }
        }
        assert forall|i: int| 0 <= i < tests.len() implies (#[trigger] tests_entries(tests)[i]).0
            == Yaml::Text("/test-"@ + number_and_name(tests[i])) by {
            if i < head.len() {
                assert(tests_entries(tests)[i] == tests_entries(head)[i]);
                assert(head[i] == tests[i]);
            }
        }
    }
}

/// Sorted tests are those that were there, as many as there were, by number, and those with the same
/// number by name.
pub proof fn law_tests_are_sorted(out: Seq<TestView>, input: Seq<TestView>)
    requires
        is_sort_of(out, input),
    ensures
        out.len() == input.len(),
        forall|i: int, j: int|
            0 <= i < j < out.len() ==> {
                ||| (#[trigger] out[i]).number < (#[trigger] out[j]).number
                ||| out[i].number == out[j].number && !text_less(out[j].name, out[i].name)
            },
        forall|k: int| 0 <= k < out.len() ==> input.contains(#[trigger] out[k]),
        forall|k: int| 0 <= k < input.len() ==> out.contains(#[trigger] input[k]),
{
    let order = choose|order: Seq<int>|
        is_order(input, order, 0) && out == #[trigger] arranged(input, order);
    assert forall|i: int, j: int| 0 <= i < j < out.len() implies {
        ||| (#[trigger] out[i]).number < (#[trigger] out[j]).number
        ||| out[i].number == out[j].number && !text_less(out[j].name, out[i].name)
    } by {
        assert(goes_before(input, order[i], order[j]));
        let a = input[order[i]];
        let b = input[order[j]];
        if text_less(a.name, b.name) {
            lemma_text_less_asymmetric(a.name, b.name);
        }
    }
    assert forall|k: int| 0 <= k < out.len() implies input.contains(#[trigger] out[k]) by {
        assert(out[k] == input[order[k]]);
    }
    assert forall|k: int| 0 <= k < input.len() implies out.contains(#[trigger] input[k]) by {
        assert(order.contains(k));
        let i = choose|i: int| 0 <= i < order.len() && order[i] == k;
        assert(out[i] == input[k]);
    }
}

/// The content of `tests.fmf` is its header, letter by letter, and the spaced lines of its document;
/// the plans section is the spaced lines of its own. The documents are those of the entries.
pub proof fn law_contents(tests: Seq<TestView>, yaml: Seq<char>)
    ensures
        tests_content(yaml) == "# THIS IS GENERATED CODE - DO NOT EDIT\n# Generated by: cargo xtask tmt\n\n# bootc probes for SELinux mac_admin capability by attempting chcon with\n# an intentionally invalid label, which generates expected AVC denials.\n# Report as informational only in OSCI gating test\ncheck:\n  - how: avc\n    result: info\n\n"@
            + spaced(lines(yaml), "/test-"@, false),
        plans_section(yaml) == spaced(lines(yaml), "/plan-"@, true),
        documents(tests).0 == yaml_rendered(Yaml::Mapping(tests_entries(tests))),
        documents(tests).1 == yaml_rendered(Yaml::Mapping(plans_entries(tests))),
{
}

/// The two files are made of the two documents, each of its own; the plans go between the markers, and
/// what stands around them is kept. A document that cannot be rendered is told of, that of the tests
/// first.
pub proof fn law_generated_files(
    r: Result<Generated, IntegrationError>,
    tests_yaml: Option<Seq<char>>,
    plans_yaml: Option<Seq<char>>,
    existing: Seq<char>,
)
    requires
        is_generated(r, tests_yaml, plans_yaml, existing),
    ensures
        tests_yaml is None ==> r == Err::<Generated, _>(IntegrationError::TestsYaml),
        tests_yaml is Some && plans_yaml is None ==> r == Err::<Generated, _>(
            IntegrationError::PlansYaml,
        ),
        tests_yaml is Some && plans_yaml is Some && !contains(
            existing,
            "# BEGIN GENERATED PLANS\n"@,
        ) ==> r == Err::<Generated, _>(IntegrationError::MissingBegin),
        r matches Ok(g) ==> {
            &&& tests_yaml is Some && plans_yaml is Some
            &&& g.tests@ == tests_content(tests_yaml->0)
            &&& exists|a: Seq<char>, old: Seq<char>, b: Seq<char>|
                {
                    &&& existing == #[trigger] (a + "# BEGIN GENERATED PLANS\n"@ + old
                        + "# END GENERATED PLANS\n"@ + b)
                    &&& g.integration@ == a + "# BEGIN GENERATED PLANS\n"@ + plans_section(
                        plans_yaml->0,
                    ) + "# END GENERATED PLANS\n"@ + b
                    &&& !contains(old, "# END GENERATED PLANS\n"@)
                    &&& !contains(a, "# BEGIN GENERATED PLANS\n"@)
                }
        },
{
    if tests_yaml is Some && plans_yaml is Some {
        let plans = plans_section(plans_yaml->0);
        law_plans_go_between_the_markers(existing, plans);
        let begin = "# BEGIN GENERATED PLANS\n"@;
        if !contains(existing, begin) {
            lemma_find(existing, begin, 0);
        }
    }
}

/// What is told when the files cannot be generated; a file is told by its name, with what is wrong
/// with it.
pub proof fn law_integration_messages(name: String, error: MetadataError, files: Seq<TestFile>, i: int, e: IntegrationError)
    requires
        is_file_error(e, files, i),
    ensures
        IntegrationError::Metadata(name, error).text() == "Parsing tmt metadata from "@ + name@
            + ": "@ + error.text(),
        IntegrationError::MissingMetadata(name).text() == "Missing tmt metadata in "@ + name@,
        IntegrationError::TestsYaml.text() == "Serializing tests to YAML"@,
        IntegrationError::PlansYaml.text() == "Serializing plans to YAML"@,
        IntegrationError::MissingBegin.text()
            == "Missing # BEGIN GENERATED PLANS marker in integration.fmf"@,
        IntegrationError::MissingEnd.text()
            == "Missing # END GENERATED PLANS marker in integration.fmf"@,
        e is MissingMetadata <==> metadata_outcome(files[i].content@) is Absent,
        e matches IntegrationError::MissingMetadata(n) ==> n@ == files[i].name@,
        e matches IntegrationError::Metadata(n, _) ==> n@ == files[i].name@,
        e is MissingMetadata || e is Metadata,
        metadata_outcome(files[i].content@) is BadNumber ==> (e matches IntegrationError::Metadata(
            _,
            m,
        ) && m is Number),
        metadata_outcome(files[i].content@) is BadExtra ==> (e matches IntegrationError::Metadata(
            _,
            m,
        ) && m is Extra),
        metadata_outcome(files[i].content@) is BadTmt ==> (e matches IntegrationError::Metadata(
            _,
            m,
        ) && m is Tmt),
{
}

/// Tests that are in their order already stay as they are; those that share a number and a name stay in
/// the order of their files.
pub proof fn law_sorted_tests_stay(out: Seq<TestView>, input: Seq<TestView>)
    requires
        is_sort_of(out, input),
        forall|i: int, j: int|
            0 <= i < j < input.len() ==> {
                ||| (#[trigger] input[i]).number < (#[trigger] input[j]).number
                ||| input[i].number == input[j].number && !text_less(input[j].name, input[i].name)
            },
    ensures
        out == input,
{
    let same = Seq::new(input.len(), |i: int| i);
    assert(lists_positions(same, 0, input.len() as int)) by {
        assert forall|p: int| 0 <= p < input.len() implies #[trigger] same.contains(p) by {
            assert(same[p] == p);
        }
    }
    assert(is_order(input, same, 0));
    assert(arranged(input, same) =~= input);
    law_sort_is_unique(input, out, input);
}

/// A file is written exactly if it is not there or holds something else; the files are in sync exactly
/// if both hold what they should, and else the first that does not is told of.
pub proof fn law_files_in_sync(
    generated: &Generated,
    tests_on_disk: &str,
    integration_on_disk: &str,
    r: Result<(), OutOfDate>,
    existing: Option<&str>,
    content: &str,
    step: FileStep,
)
    requires
        call_ensures(check_integration, (generated, tests_on_disk, integration_on_disk), r),
        call_ensures(file_step, (existing, content), step),
    ensures
        r is Ok <==> tests_on_disk@ == generated.tests@ && integration_on_disk@
            == generated.integration@,
        tests_on_disk@ != generated.tests@ ==> r == Err::<(), OutOfDate>(OutOfDate::Tests),
        step == FileStep::Unchanged <==> (existing matches Some(e) && e@ == content@),
{
}

/// The metadata of a test is its mapping, all of it; what is no mapping says nothing.
pub proof fn law_own_entries(m: Seq<(Yaml, Yaml)>, v: Yaml)
    ensures
        own_entries(Yaml::Mapping(m)) == m,
        !(v is Mapping) ==> own_entries(v).len() == 0,
{
}

} // verus!
