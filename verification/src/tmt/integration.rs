//! The generated test files: `tests.fmf`, and the plans section of
//! `integration.fmf`.

use vstd::prelude::*;

use crate::text::{
    after_prefix, before_suffix, begins_with, chars_of, concat2, concat3, contains, cut_once,
    decimal, ends_with, is_digit, join, lemma_find, lines, lines_of, number_string, occurs_at, same,
    split_once, strip_prefix, strip_suffix, texts, trim_start, trimmed_start, zero_padded, Class,
};
use crate::tmt::metadata::{
    head_lines, metadata_outcome, parse_tmt_metadata, scan_lines, MetadataError, MetadataOutcome,
    TmtMetadata,
};
use crate::yaml::{
    bool_value, entry, mapping_clone, mapping_get, mapping_insert, mapping_new, mapping_value,
    render_document, single_value, text_value, value_as_bool, value_as_mapping, value_clone,
    value_mapping, with_entry, yaml_entries, yaml_rendered, yaml_value, Yaml,
};

verus! {

/// Where the generated plans begin in `integration.fmf`.
pub const PLAN_MARKER_BEGIN: &'static str = "# BEGIN GENERATED PLANS\n";

/// Where the generated plans end in `integration.fmf`.
pub const PLAN_MARKER_END: &'static str = "# END GENERATED PLANS\n";

pub const FIELD_TRY_BIND_STORAGE: &'static str = "try_bind_storage";

pub const FIELD_SUMMARY: &'static str = "summary";

pub const FIELD_ADJUST: &'static str = "adjust";

pub const FIELD_ENABLED: &'static str = "enabled";

pub const FIELD_FIXME_SKIP_IF_COMPOSEFS: &'static str = "fixme_skip_if_composefs";

pub const FIELD_FIXME_SKIP_IF_UKI: &'static str = "fixme_skip_if_uki";

/// For tests that should only run for composefs systems.
pub const FIELD_SKIP_IF_OSTREE: &'static str = "skip_if_ostree";

/// For the test that installs a second disk from within the guest.
pub const FIELD_FRESH_INSTALL_DISK: &'static str = "fresh_install_disk";

/// What stands at the top of `tests.fmf`.
pub const TESTS_HEADER: &'static str =
    "# THIS IS GENERATED CODE - DO NOT EDIT\n# Generated by: cargo xtask tmt\n\n# bootc probes for SELinux mac_admin capability by attempting chcon with\n# an intentionally invalid label, which generates expected AVC denials.\n# Report as informational only in OSCI gating test\ncheck:\n  - how: avc\n    result: info\n\n";

// ---------------------------------------------------------------------------
// From file names to tests
// ---------------------------------------------------------------------------

/// The name of a test file without its prefix `test-` and its extension, where
/// it has both.
pub open spec fn stem(filename: Seq<char>) -> Option<Seq<char>> {
    match strip_prefix(filename, "test-"@) {
        Some(s) => match strip_suffix(s, ".nu"@) {
            Some(t) => Some(t),
            None => match strip_suffix(s, ".sh"@) {
                Some(t) => Some(t),
                None => strip_suffix(s, ".py"@),
            },
        },
        None => None,
    }
}

/// Whether every character is a digit.
pub open spec fn only_digits(s: Seq<char>) -> bool {
    forall|i: int| 0 <= i < s.len() ==> is_digit(#[trigger] s[i])
}

/// The stem without a leading number and dash.
pub open spec fn display_name(stem: Seq<char>) -> Seq<char> {
    match split_once(stem, "-"@) {
        Some((prefix, suffix)) => if only_digits(prefix) {
            suffix
        } else {
            stem
        },
        None => stem,
    }
}

/// The command that runs a test file, by its extension.
pub open spec fn test_command(filename: Seq<char>) -> Seq<char> {
    let program = if ".nu"@.is_suffix_of(filename) {
        "nu booted/"@
    } else if ".sh"@.is_suffix_of(filename) {
        "bash booted/"@
    } else {
        "python3 booted/"@
    };
    program + filename
}

/// Whether a flag is set in the extra metadata.
pub open spec fn flag(extra: Yaml, key: Seq<char>) -> bool {
    match extra.as_mapping() {
        Some(entries) => match entry(entries, key) {
            Some(v) => v.as_bool() == Some(true),
            None => false,
        },
        None => false,
    }
}

/// A test, in terms of texts and YAML.
pub struct TestView {
    pub number: nat,
    pub name: Seq<char>,
    pub test_command: Seq<char>,
    pub try_bind_storage: bool,
    pub skip_if_composefs: bool,
    pub skip_if_ostree: bool,
    pub skip_if_uki: bool,
    pub fresh_install_disk: bool,
    pub tmt: Yaml,
}

/// The test that a file with metadata defines.
pub open spec fn test_of(filename: Seq<char>, number: nat, extra: Yaml, tmt: Yaml) -> TestView {
    TestView {
        number,
        name: display_name(stem(filename)->0),
        test_command: test_command(filename),
        try_bind_storage: flag(extra, FIELD_TRY_BIND_STORAGE@),
        skip_if_composefs: flag(extra, FIELD_FIXME_SKIP_IF_COMPOSEFS@),
        skip_if_ostree: flag(extra, FIELD_SKIP_IF_OSTREE@),
        skip_if_uki: flag(extra, FIELD_FIXME_SKIP_IF_UKI@),
        fresh_install_disk: flag(extra, FIELD_FRESH_INSTALL_DISK@),
        tmt,
    }
}

/// A test file: its name and what is in it.
#[derive(Debug, Clone)]
pub struct TestFile {
    pub name: String,
    pub content: String,
}

/// The tests that a list of files defines, in the order of the files. Files with
/// another name than that of a test are passed over.
///
/// `Err` holds the position of the first test file without sound metadata.
pub open spec fn tests_of(files: Seq<TestFile>) -> Result<Seq<TestView>, int>
    decreases files.len(),
{
    if files.len() == 0 {
        Ok(seq![])
    } else {
        let last = files.last();
        match tests_of(files.drop_last()) {
            Err(i) => Err(i),
            Ok(tests) => if stem(last.name@) is None {
                Ok(tests)
            } else {
                match metadata_outcome(last.content@) {
                    MetadataOutcome::Found { number, extra, tmt } => Ok(
                        tests.push(test_of(last.name@, number, extra, tmt)),
                    ),
                    _ => Err(files.len() - 1),
                }
            },
        }
    }
}

/// A test, with the metadata that goes into its entry.
#[derive(Debug)]
pub struct TestDef {
    pub number: u32,
    pub name: String,
    pub test_command: String,
    /// Whether this test wants to try bind storage (if the distro supports it).
    pub try_bind_storage: bool,
    /// Whether to skip this test for the composefs backend.
    pub skip_if_composefs: bool,
    /// Whether to skip this test for the ostree backend.
    pub skip_if_ostree: bool,
    /// Whether to skip this test for images with a UKI.
    pub skip_if_uki: bool,
    /// Install and boot a newly attached disk; opt-in because it retains the VM
    /// and the disk for inspection.
    pub fresh_install_disk: bool,
    /// TMT attributes to pass through (summary, duration, adjust and the like).
    pub tmt: serde_yaml::Value,
}

impl TestDef {
    pub open spec fn view(&self) -> TestView {
        TestView {
            number: self.number as nat,
            name: self.name@,
            test_command: self.test_command@,
            try_bind_storage: self.try_bind_storage,
            skip_if_composefs: self.skip_if_composefs,
            skip_if_ostree: self.skip_if_ostree,
            skip_if_uki: self.skip_if_uki,
            fresh_install_disk: self.fresh_install_disk,
            tmt: yaml_value(self.tmt),
        }
    }
}

/// The tests of a list, in terms of texts and YAML.
pub open spec fn test_views(tests: Seq<TestDef>) -> Seq<TestView> {
    Seq::new(tests.len(), |i: int| tests[i]@)
}

/// Whether the text `a` comes before the text `b`, character by character.
pub open spec fn text_less(a: Seq<char>, b: Seq<char>) -> bool
    decreases a.len(),
{
    if b.len() == 0 {
        false
    } else if a.len() == 0 {
        true
    } else if a[0] != b[0] {
        a[0] < b[0]
    } else {
        text_less(a.drop_first(), b.drop_first())
    }
}

/// Whether the test `a` comes before the test `b`: by number, then by name.
pub open spec fn test_less(a: TestView, b: TestView) -> bool {
    a.number < b.number || (a.number == b.number && text_less(a.name, b.name))
}

/// Whether `order` lists each position from `lo` up to `hi` once.
pub open spec fn lists_positions(order: Seq<int>, lo: int, hi: int) -> bool {
    &&& order.len() == hi - lo
    &&& forall|i: int| 0 <= i < order.len() ==> lo <= #[trigger] order[i] < hi
    &&& forall|i: int, j: int| 0 <= i < j < order.len() ==> order[i] != order[j]
    &&& forall|p: int| lo <= p < hi ==> #[trigger] order.contains(p)
}

/// Whether the test at position `p` of `input` goes before that at position `q`:
/// by number and name, and tests that share both by their positions.
pub open spec fn goes_before(input: Seq<TestView>, p: int, q: int) -> bool {
    test_less(input[p], input[q]) || (!test_less(input[q], input[p]) && p < q)
}

/// Whether `order` lists the positions from `lo` on so that each goes before
/// those behind it.
pub open spec fn is_order(input: Seq<TestView>, order: Seq<int>, lo: int) -> bool {
    &&& lists_positions(order, lo, input.len() as int)
    &&& forall|i: int, j: int|
        0 <= i < j < order.len() ==> goes_before(input, #[trigger] order[i], #[trigger] order[j])
}

/// The tests at the positions of `order`.
pub open spec fn arranged(input: Seq<TestView>, order: Seq<int>) -> Seq<TestView> {
    Seq::new(order.len(), |i: int| input[order[i]])
}

/// Whether `out` is the stable sort of `input`.
pub open spec fn is_sort_of(out: Seq<TestView>, input: Seq<TestView>) -> bool {
    exists|order: Seq<int>| is_order(input, order, 0) && out == #[trigger] arranged(input, order)
}

/// A text is before no text that is before it.
pub proof fn lemma_text_less_asymmetric(a: Seq<char>, b: Seq<char>)
    requires
        text_less(a, b),
    ensures
        !text_less(b, a),
    decreases a.len(),
{
    if a.len() > 0 && a[0] == b[0] {
        lemma_text_less_asymmetric(a.drop_first(), b.drop_first());
    }
}

/// Texts neither of which is before the other are the same.
proof fn lemma_text_less_total(a: Seq<char>, b: Seq<char>)
    requires
        !text_less(a, b),
        !text_less(b, a),
    ensures
        a == b,
    decreases a.len(),
{
    if a.len() > 0 && b.len() > 0 {
        lemma_text_less_total(a.drop_first(), b.drop_first());
        assert(a =~= seq![a[0]] + a.drop_first());
        assert(b =~= seq![b[0]] + b.drop_first());
    }
    assert(a =~= b);
}

/// A text not behind `b` is before every text that `b` is before.
proof fn lemma_text_less_chain(a: Seq<char>, b: Seq<char>, c: Seq<char>)
    requires
        !text_less(b, a),
        text_less(b, c),
    ensures
        text_less(a, c),
    decreases b.len(),
{
    if a.len() > 0 && b.len() > 0 && c.len() > 0 && a[0] == b[0] && b[0] == c[0] {
        lemma_text_less_chain(a.drop_first(), b.drop_first(), c.drop_first());
    }
}

/// The same of tests.
proof fn lemma_test_less_chain(a: TestView, b: TestView, c: TestView)
    requires
        !test_less(b, a),
        test_less(b, c),
    ensures
        test_less(a, c),
{
    if a.number == b.number && b.number == c.number {
        lemma_text_less_chain(a.name, b.name, c.name);
    }
}

/// No position goes before one that goes before it.
proof fn lemma_goes_before_asymmetric(input: Seq<TestView>, p: int, q: int)
    requires
        goes_before(input, p, q),
    ensures
        !goes_before(input, q, p),
{
    let a = input[p];
    let b = input[q];
    if test_less(a, b) && test_less(b, a) {
        lemma_text_less_asymmetric(a.name, b.name);
    }
}

/// The order of the tests is determined by number and name: there is one stable
/// sort only.
pub proof fn law_sort_is_unique(input: Seq<TestView>, a: Seq<TestView>, b: Seq<TestView>)
    requires
        is_sort_of(a, input),
        is_sort_of(b, input),
    ensures
        a == b,
{
    let oa = choose|order: Seq<int>|
        is_order(input, order, 0) && a == #[trigger] arranged(input, order);
    let ob = choose|order: Seq<int>|
        is_order(input, order, 0) && b == #[trigger] arranged(input, order);
    lemma_order_is_unique(input, oa, ob, input.len() as int);
    assert(oa =~= ob);
}

/// Two orders agree on their first `k` positions.
proof fn lemma_order_is_unique(input: Seq<TestView>, oa: Seq<int>, ob: Seq<int>, k: int)
    requires
        is_order(input, oa, 0),
        is_order(input, ob, 0),
        0 <= k <= input.len(),
    ensures
        forall|i: int| 0 <= i < k ==> oa[i] == ob[i],
    decreases k,
{
    if k > 0 {
        lemma_order_is_unique(input, oa, ob, k - 1);
        let p = oa[k - 1];
        let q = ob[k - 1];
        if p != q {
            assert(oa.contains(q));
            assert(ob.contains(p));
            let m = choose|m: int| 0 <= m < oa.len() && oa[m] == q;
            let n = choose|n: int| 0 <= n < ob.len() && ob[n] == p;
            assert(m > k - 1) by {
                if m < k - 1 {
                    assert(ob[m] == q);
                }
            }
            assert(n > k - 1) by {
                if n < k - 1 {
                    assert(oa[n] == p);
                }
            }
            assert(goes_before(input, oa[k - 1], oa[m]));
            assert(goes_before(input, ob[k - 1], ob[n]));
            lemma_goes_before_asymmetric(input, p, q);
        }
    }
}

// ---------------------------------------------------------------------------
// The documents
// ---------------------------------------------------------------------------

/// A number and a name, as they stand in the keys of tests and plans.
pub open spec fn numbered(prefix: Seq<char>, test: TestView) -> Seq<char> {
    prefix + zero_padded(decimal(test.number), 2) + "-"@ + test.name
}

/// The entries of a value that is a mapping, none of another.
pub open spec fn own_entries(value: Yaml) -> Seq<(Yaml, Yaml)> {
    match value {
        Yaml::Mapping(entries) => entries,
        _ => seq![],
    }
}

/// What `tests.fmf` holds of a test: its tmt metadata and its command.
pub open spec fn test_entry(test: TestView) -> Yaml {
    Yaml::Mapping(with_entry(own_entries(test.tmt), "test"@, Yaml::Text(test.test_command)))
}

/// The entries of `tests.fmf`.
pub open spec fn tests_entries(tests: Seq<TestView>) -> Seq<(Yaml, Yaml)>
    decreases tests.len(),
{
    if tests.len() == 0 {
        seq![]
    } else {
        with_entry(
            tests_entries(tests.drop_last()),
            numbered("/test-"@, tests.last()),
            test_entry(tests.last()),
        )
    }
}

/// The entries with the value that `from` has under `key`, where it has one.
pub open spec fn copied(
    entries: Seq<(Yaml, Yaml)>,
    from: Seq<(Yaml, Yaml)>,
    key: Seq<char>,
) -> Seq<(Yaml, Yaml)> {
    match entry(from, key) {
        Some(v) => with_entry(entries, key, v),
        None => entries,
    }
}

/// The entries with `extra-<key>: true`, where the flag is set.
pub open spec fn flagged(entries: Seq<(Yaml, Yaml)>, set: bool, key: Seq<char>) -> Seq<
    (Yaml, Yaml),
> {
    if set {
        with_entry(entries, "extra-"@ + key, Yaml::Bool(true))
    } else {
        entries
    }
}

/// How a plan finds its test.
pub open spec fn discover(test: TestView) -> Yaml {
    Yaml::Mapping(
        with_entry(
            with_entry(seq![], "how"@, Yaml::Text("fmf"@)),
            "test"@,
            Yaml::Sequence(seq![Yaml::Text(numbered("/tmt/tests/tests/test-"@, test))]),
        ),
    )
}

/// What the plans section holds of a test.
pub open spec fn plan_entry(test: TestView) -> Yaml {
    let tmt = own_entries(test.tmt);
    let a = copied(copied(seq![], tmt, FIELD_SUMMARY@), tmt, FIELD_ENABLED@);
    let b = copied(with_entry(a, "discover"@, discover(test)), tmt, FIELD_ADJUST@);
    let c = flagged(b, test.try_bind_storage, FIELD_TRY_BIND_STORAGE@);
    let d = flagged(c, test.skip_if_composefs, FIELD_FIXME_SKIP_IF_COMPOSEFS@);
    let e = flagged(d, test.skip_if_ostree, FIELD_SKIP_IF_OSTREE@);
    let f = flagged(e, test.skip_if_uki, FIELD_FIXME_SKIP_IF_UKI@);
    Yaml::Mapping(flagged(f, test.fresh_install_disk, FIELD_FRESH_INSTALL_DISK@))
}

/// The entries of the plans section.
pub open spec fn plans_entries(tests: Seq<TestView>) -> Seq<(Yaml, Yaml)>
    decreases tests.len(),
{
    if tests.len() == 0 {
        seq![]
    } else {
        with_entry(
            plans_entries(tests.drop_last()),
            numbered("/plan-"@, tests.last()),
            plan_entry(tests.last()),
        )
    }
}

// ---------------------------------------------------------------------------
// The texts
// ---------------------------------------------------------------------------

/// The indentation of a line of the plans section: a test in a list goes six in.
pub open spec fn plan_line(line: Seq<char>) -> Seq<char> {
    if "    - /tmt/tests/"@.is_prefix_of(line) {
        "      "@ + trim_start(line, Class::White)
    } else {
        line
    }
}

/// The lines, each with its ending, and a blank line before each but the first
/// that begins with `marker`. Lines of the plans section are indented anew.
pub open spec fn spaced(ls: Seq<Seq<char>>, marker: Seq<char>, plans: bool) -> Seq<char>
    decreases ls.len(),
{
    if ls.len() == 0 {
        seq![]
    } else {
        let before = spaced(ls.drop_last(), marker, plans);
        let line = ls.last();
        let gap = if marker.is_prefix_of(line) && before.len() > 0 {
            "\n"@
        } else {
            seq![]
        };
        let shown = if plans {
            plan_line(line)
        } else {
            line
        };
        before + gap + shown + "\n"@
    }
}

/// The content of `tests.fmf`, from the YAML text of its entries.
pub open spec fn tests_content(yaml: Seq<char>) -> Seq<char> {
    TESTS_HEADER@ + spaced(lines(yaml), "/test-"@, false)
}

/// The plans section, from the YAML text of its entries.
pub open spec fn plans_section(yaml: Seq<char>) -> Seq<char> {
    spaced(lines(yaml), "/plan-"@, true)
}

/// `integration.fmf` with its generated section replaced.
pub enum Spliced {
    MissingBegin,
    MissingEnd,
    Content(Seq<char>),
}

/// The content with `plans` between the markers. What stands outside of them is
/// kept.
pub open spec fn splice(existing: Seq<char>, plans: Seq<char>) -> Spliced {
    match split_once(existing, PLAN_MARKER_BEGIN@) {
        None => Spliced::MissingBegin,
        Some((before, rest)) => match split_once(rest, PLAN_MARKER_END@) {
            None => Spliced::MissingEnd,
            Some((_, after)) => Spliced::Content(
                before + PLAN_MARKER_BEGIN@ + plans + PLAN_MARKER_END@ + after,
            ),
        },
    }
}

// ---------------------------------------------------------------------------
// Reading test files
// ---------------------------------------------------------------------------

/// The name of a test file without its prefix `test-` and its extension, where
/// it has both: the files with such a name are the ones to read.
pub fn test_stem(filename: &str) -> (r: Option<String>)
    ensures
        crate::text::opt_text(r) == stem(filename@),
{
    match after_prefix(filename, "test-") {
        Some(s) => match before_suffix(s.as_str(), ".nu") {
            Some(t) => Some(t),
            None => match before_suffix(s.as_str(), ".sh") {
                Some(t) => Some(t),
                None => before_suffix(s.as_str(), ".py"),
            },
        },
        None => None,
    }
}

/// Whether every character is a digit.
fn all_digits(s: &str) -> (r: bool)
    ensures
        r == only_digits(s@),
{
    let sc = chars_of(s);
    let mut i: usize = 0;
    while i < sc.len()
        invariant
            i <= sc@.len(),
            sc@ == s@,
            forall|j: int| 0 <= j < i ==> is_digit(s@[j]),
        decreases sc@.len() - i,
    {
        let c = sc[i];
        if !('0' <= c && c <= '9') {
            assert(!is_digit(s@[i as int]));
            return false;
        }
        i = i + 1;
    }
    true
}

/// The stem without a leading number and dash: `readonly` for `01-readonly`.
pub fn display_name_of(stem: &str) -> (r: String)
    ensures
        r@ == display_name(stem@),
{
    match cut_once(stem, "-") {
        Some((prefix, suffix)) => {
            if all_digits(prefix.as_str()) {
                suffix
            } else {
                stem.to_string()
            }
        },
        None => stem.to_string(),
    }
}

/// The command that runs a test file, by its extension.
pub fn test_command_of(filename: &str) -> (r: String)
    ensures
        r@ == test_command(filename@),
{
    if ends_with(filename, ".nu") {
        concat2("nu booted/", filename)
    } else if ends_with(filename, ".sh") {
        concat2("bash booted/", filename)
    } else {
        concat2("python3 booted/", filename)
    }
}

/// Whether a flag is set in the extra metadata.
pub fn flag_of(extra: &serde_yaml::Value, key: &str) -> (r: bool)
    ensures
        r == flag(yaml_value(*extra), key@),
{
    match value_as_mapping(extra) {
        Some(m) => match mapping_get(m, key) {
            Some(v) => match value_as_bool(v) {
                Some(b) => b,
                None => false,
            },
            None => false,
        },
        None => false,
    }
}

/// The test that a file with metadata defines.
pub fn test_def(filename: &str, metadata: TmtMetadata) -> (r: Option<TestDef>)
    ensures
        match r {
            Some(t) => stem(filename@) is Some && t@ == test_of(
                filename@,
                metadata.number as nat,
                yaml_value(metadata.extra),
                yaml_value(metadata.tmt),
            ),
            None => stem(filename@) is None,
        },
{
    let stem = match test_stem(filename) {
        Some(stem) => stem,
        None => return None,
    };
    let name = display_name_of(stem.as_str());
    let test_command = test_command_of(filename);
    let try_bind_storage = flag_of(&metadata.extra, FIELD_TRY_BIND_STORAGE);
    let skip_if_composefs = flag_of(&metadata.extra, FIELD_FIXME_SKIP_IF_COMPOSEFS);
    let skip_if_ostree = flag_of(&metadata.extra, FIELD_SKIP_IF_OSTREE);
    let skip_if_uki = flag_of(&metadata.extra, FIELD_FIXME_SKIP_IF_UKI);
    let fresh_install_disk = flag_of(&metadata.extra, FIELD_FRESH_INSTALL_DISK);
    Some(
        TestDef {
            number: metadata.number,
            name,
            test_command,
            try_bind_storage,
            skip_if_composefs,
            skip_if_ostree,
            skip_if_uki,
            fresh_install_disk,
            tmt: metadata.tmt,
        },
    )
}

/// Why the generated files cannot be written.
#[derive(Debug)]
pub enum IntegrationError {
    /// The metadata of the named file cannot be read.
    Metadata(String, MetadataError),
    /// The named file has no metadata.
    MissingMetadata(String),
    /// The tests cannot be written as YAML.
    TestsYaml,
    /// The plans cannot be written as YAML.
    PlansYaml,
    /// `integration.fmf` lacks the marker where the plans begin.
    MissingBegin,
    /// `integration.fmf` lacks the marker where the plans end.
    MissingEnd,
}

impl IntegrationError {
    /// The text of the error.
    pub open spec fn text(self) -> Seq<char> {
        match self {
            IntegrationError::Metadata(name, error) => "Parsing tmt metadata from "@ + name@ + ": "@
                + error.text(),
            IntegrationError::MissingMetadata(name) => "Missing tmt metadata in "@ + name@,
            IntegrationError::TestsYaml => "Serializing tests to YAML"@,
            IntegrationError::PlansYaml => "Serializing plans to YAML"@,
            IntegrationError::MissingBegin => {
                "Missing # BEGIN GENERATED PLANS marker in integration.fmf"@
            },
            IntegrationError::MissingEnd => {
                "Missing # END GENERATED PLANS marker in integration.fmf"@
            },
        }
    }

    /// The text of the error.
    pub fn message(&self) -> (r: String)
        ensures
            r@ == self.text(),
    {
        match self {
            IntegrationError::Metadata(name, error) => {
                let head = concat3("Parsing tmt metadata from ", name.as_str(), ": ");
                let tail = error.message();
                concat2(head.as_str(), tail.as_str())
            },
            IntegrationError::MissingMetadata(name) => concat2(
                "Missing tmt metadata in ",
                name.as_str(),
            ),
            IntegrationError::TestsYaml => "Serializing tests to YAML".to_string(),
            IntegrationError::PlansYaml => "Serializing plans to YAML".to_string(),
            IntegrationError::MissingBegin => {
                "Missing # BEGIN GENERATED PLANS marker in integration.fmf".to_string()
            },
            IntegrationError::MissingEnd => {
                "Missing # END GENERATED PLANS marker in integration.fmf".to_string()
            },
        }
    }
}

/// A file without sound metadata is not made up for by the files behind it.
proof fn lemma_tests_of_stays_bad(files: Seq<TestFile>, i: int)
    requires
        0 <= i <= files.len(),
        tests_of(files.take(i)) is Err,
    ensures
        tests_of(files) == tests_of(files.take(i)),
    decreases files.len() - i,
{
    if i < files.len() {
        assert(files.take(i + 1).drop_last() =~= files.take(i));
        lemma_tests_of_stays_bad(files, i + 1);
    } else {
        assert(files.take(i) =~= files);
    }
}

/// Whether `e` is the error for the file at position `i` of `files`.
pub open spec fn is_file_error(e: IntegrationError, files: Seq<TestFile>, i: int) -> bool {
    match metadata_outcome(files[i].content@) {
        MetadataOutcome::Absent => e matches IntegrationError::MissingMetadata(name) && name@
            == files[i].name@,
        MetadataOutcome::BadNumber => e matches IntegrationError::Metadata(
            name,
            MetadataError::Number,
        ) && name@ == files[i].name@,
        MetadataOutcome::BadExtra => e matches IntegrationError::Metadata(
            name,
            MetadataError::Extra(block, _),
        ) && name@ == files[i].name@ && block@ == join(
            scan_lines(head_lines(files[i].content@))->0.extra,
            "\n"@,
        ),
        MetadataOutcome::BadTmt => e matches IntegrationError::Metadata(
            name,
            MetadataError::Tmt(block, _),
        ) && name@ == files[i].name@ && block@ == join(
            scan_lines(head_lines(files[i].content@))->0.tmt,
            "\n"@,
        ),
        MetadataOutcome::Found { .. } => false,
    }
}

/// Reads the tests that a list of files defines, in the order of the files.
pub fn read_tests(files: &Vec<TestFile>) -> (r: Result<Vec<TestDef>, IntegrationError>)
    ensures
        match tests_of(files@) {
            Ok(tests) => r matches Ok(v) && test_views(v@) == tests,
            Err(i) => 0 <= i < files@.len() && (r matches Err(e) && is_file_error(e, files@, i)),
        },
{
    let mut tests: Vec<TestDef> = Vec::new();
    let mut i: usize = 0;
    assert(files@.take(0).len() == 0);
    assert(test_views(tests@) =~= seq![]);
    while i < files.len()
        invariant
            i <= files@.len(),
            tests_of(files@.take(i as int)) == Ok::<Seq<TestView>, int>(test_views(tests@)),
        decreases files@.len() - i,
    {
        let file = &files[i];
        let ghost now = files@.take(i + 1);
        assert(now.drop_last() =~= files@.take(i as int));
        assert(now.last() == *file);
        let stem_found = test_stem(file.name.as_str());
        if stem_found.is_some() {
            match parse_tmt_metadata(file.content.as_str()) {
                Err(e) => {
                    proof {
                        assert(tests_of(now) == Err::<Seq<TestView>, int>(i as int));
                        lemma_tests_of_stays_bad(files@, i + 1);
                    }
                    return Err(IntegrationError::Metadata(file.name.clone(), e));
                },
                Ok(None) => {
                    proof {
                        assert(tests_of(now) == Err::<Seq<TestView>, int>(i as int));
                        lemma_tests_of_stays_bad(files@, i + 1);
                    }
                    return Err(IntegrationError::MissingMetadata(file.name.clone()));
                },
                Ok(Some(metadata)) => {
                    match test_def(file.name.as_str(), metadata) {
                        Some(test) => {
                            let ghost before = tests@;
                            tests.push(test);
                            assert(test_views(tests@) =~= test_views(before).push(test@));
                        },
                        None => {},
                    }
                },
            }
        }
        i = i + 1;
    }
    assert(files@.take(i as int) =~= files@);
    Ok(tests)
}

/// Whether the text `a` comes before the text `b`.
fn text_is_less(a: &str, b: &str) -> (r: bool)
    ensures
        r == text_less(a@, b@),
{
    let ac = chars_of(a);
    let bc = chars_of(b);
    let mut i: usize = 0;
    assert(a@.skip(0) =~= a@);
    assert(b@.skip(0) =~= b@);
    while i < ac.len() && i < bc.len()
        invariant
            ac@ == a@,
            bc@ == b@,
            i <= a@.len(),
            i <= b@.len(),
            text_less(a@, b@) == text_less(a@.skip(i as int), b@.skip(i as int)),
        decreases a@.len() - i,
    {
        if ac[i] != bc[i] {
            return ac[i] < bc[i];
        }
        assert(a@.skip(i as int).drop_first() =~= a@.skip(i + 1));
        assert(b@.skip(i as int).drop_first() =~= b@.skip(i + 1));
        i = i + 1;
    }
    i < bc.len()
}

/// Whether the test `a` comes before the test `b`: by number, then by name.
pub fn test_is_less(a: &TestDef, b: &TestDef) -> (r: bool)
    ensures
        r == test_less(a@, b@),
{
    a.number < b.number || (a.number == b.number && text_is_less(a.name.as_str(), b.name.as_str()))
}

/// Sorts the tests by number and name; tests that share both keep their order.
pub fn sort_tests(tests: Vec<TestDef>) -> (r: Vec<TestDef>)
    ensures
        is_sort_of(test_views(r@), test_views(tests@)),
{
    let ghost input = test_views(tests@);
    let mut left = tests;
    let mut out: Vec<TestDef> = Vec::new();
    let ghost mut order: Seq<int> = seq![];
    assert(test_views(out@) =~= arranged(input, order));
    while left.len() > 0
        invariant
            left@.len() <= input.len(),
            test_views(left@) == input.take(left@.len() as int),
            is_order(input, order, left@.len() as int),
            test_views(out@) == arranged(input, order),
        decreases left@.len(),
    {
        let ghost before = left@;
        let test = left.pop().unwrap();
        let ghost k = left@.len() as int;
        proof {
            assert(test_views(before)[k] == test@);
            assert(input[k] == test@);
            assert(test_views(left@) =~= input.take(k));
        }
        let mut pos: usize = 0;
        assert(test_views(out@).len() == out@.len());
        while pos < out.len() && test_is_less(&out[pos], &test)
            invariant
                pos <= out@.len(),
                out@.len() == order.len(),
                test_views(out@) == arranged(input, order),
                input[k] == test@,
                forall|i: int| 0 <= i < pos ==> test_less(#[trigger] input[order[i]], test@),
            decreases out@.len() - pos,
        {
            assert(test_views(out@)[pos as int] == out@[pos as int]@);
            assert(arranged(input, order)[pos as int] == input[order[pos as int]]);
            pos = pos + 1;
        }
        proof {
            let old_order = order;
            assert(arranged(input, old_order).len() == out@.len());
            if pos < out@.len() {
                assert(test_views(out@)[pos as int] == out@[pos as int]@);
                assert(arranged(input, old_order)[pos as int] == input[old_order[pos as int]]);
                assert(!test_less(input[old_order[pos as int]], test@));
            }
            let new_order = old_order.insert(pos as int, k);
            lemma_insert_order(input, old_order, pos as int, k);
            assert(test_views(out@.insert(pos as int, test)) =~= arranged(input, new_order)) by {
                assert forall|i: int| 0 <= i < new_order.len() implies #[trigger] test_views(
                    out@.insert(pos as int, test),
                )[i] == arranged(input, new_order)[i] by {
                    if i < pos {
                        assert(test_views(out@)[i] == arranged(input, old_order)[i]);
                    } else if i > pos {
                        assert(test_views(out@)[i - 1] == arranged(input, old_order)[i - 1]);
                    }
                }
            }
            order = new_order;
        }
        out.insert(pos, test);
    }
    assert(is_order(input, order, 0));
    out
}

/// Putting the position `k` where it belongs keeps an order of the positions
/// behind it an order.
proof fn lemma_insert_order(input: Seq<TestView>, order: Seq<int>, pos: int, k: int)
    requires
        0 <= k < input.len(),
        is_order(input, order, k + 1),
        0 <= pos <= order.len(),
        forall|i: int| 0 <= i < pos ==> test_less(#[trigger] input[order[i]], input[k]),
        pos < order.len() ==> !test_less(input[order[pos]], input[k]),
    ensures
        is_order(input, order.insert(pos, k), k),
{
    let new = order.insert(pos, k);
    assert forall|p: int| k <= p < input.len() implies #[trigger] new.contains(p) by {
        if p == k {
            assert(new[pos] == k);
        } else {
            assert(order.contains(p));
            let m = choose|m: int| 0 <= m < order.len() && order[m] == p;
            if m < pos {
                assert(new[m] == p);
            } else {
                assert(new[m + 1] == p);
            }
        }
    }
    assert forall|i: int, j: int| 0 <= i < j < new.len() implies goes_before(
        input,
        #[trigger] new[i],
        #[trigger] new[j],
    ) by {
        if i < pos && j < pos {
            assert(goes_before(input, order[i], order[j]));
        } else if i < pos && j == pos {
            assert(test_less(input[order[i]], input[k]));
        } else if i < pos {
            assert(goes_before(input, order[i], order[j - 1]));
        } else if i == pos {
            let q = order[j - 1];
            if test_less(input[q], input[k]) {
                if j - 1 > pos {
                    assert(goes_before(input, order[pos], order[j - 1]));
                    lemma_goes_before_asymmetric(input, order[pos], q);
                    lemma_test_less_chain(input[order[pos]], input[q], input[k]);
                }
                assert(false);
            }
        } else {
            assert(goes_before(input, order[i - 1], order[j - 1]));
        }
    }
}

// ---------------------------------------------------------------------------
// Building the documents
// ---------------------------------------------------------------------------

/// A number of at least two digits and a name, behind a prefix.
pub fn numbered_name(prefix: &str, test: &TestDef) -> (r: String)
    ensures
        r@ == numbered(prefix@, test@),
{
    let number = number_string(test.number as u64, 10, 2);
    let head = concat3(prefix, number.as_str(), "-");
    concat2(head.as_str(), test.name.as_str())
}

/// The mapping behind a value: a copy where the value is one, else an empty one.
fn own_mapping(value: &serde_yaml::Value) -> (r: serde_yaml::Mapping)
    ensures
        yaml_entries(r) == own_entries(yaml_value(*value)),
{
    match value_mapping(value) {
        Some(m) => mapping_clone(m),
        None => mapping_new(),
    }
}

/// The document of `tests.fmf`.
pub fn tests_document(tests: &Vec<TestDef>) -> (r: serde_yaml::Value)
    ensures
        yaml_value(r) == Yaml::Mapping(tests_entries(test_views(tests@))),
{
    let mut doc = mapping_new();
    let mut i: usize = 0;
    let ghost views = test_views(tests@);
    while i < tests.len()
        invariant
            i <= tests@.len(),
            views == test_views(tests@),
            yaml_entries(doc) == tests_entries(views.take(i as int)),
        decreases tests@.len() - i,
    {
        let test = &tests[i];
        assert(views.take(i + 1).drop_last() =~= views.take(i as int));
        assert(views.take(i + 1).last() == test@);
        let mut entries = own_mapping(&test.tmt);
        mapping_insert(&mut entries, "test", text_value(test.test_command.as_str()));
        let key = numbered_name("/test-", test);
        mapping_insert(&mut doc, key.as_str(), mapping_value(entries));
        i = i + 1;
    }
    assert(views.take(i as int) =~= views);
    mapping_value(doc)
}

/// Copies the value under `key`, where there is one.
fn copy_entry(to: &mut serde_yaml::Mapping, from: &serde_yaml::Mapping, key: &str)
    ensures
        yaml_entries(*final(to)) == copied(yaml_entries(*old(to)), yaml_entries(*from), key@),
{
    match mapping_get(from, key) {
        Some(v) => {
            let copy = value_clone(v);
            mapping_insert(to, key, copy);
        },
        None => {},
    }
}

/// Sets `extra-<key>`, where the flag is set.
fn set_flag(to: &mut serde_yaml::Mapping, set: bool, key: &str)
    ensures
        yaml_entries(*final(to)) == flagged(yaml_entries(*old(to)), set, key@),
{
    if set {
        let name = concat2("extra-", key);
        mapping_insert(to, name.as_str(), bool_value(true));
    }
}

/// How a plan finds its test.
fn discover_value(test: &TestDef) -> (r: serde_yaml::Value)
    ensures
        yaml_value(r) == discover(test@),
{
    let mut entries = mapping_new();
    mapping_insert(&mut entries, "how", text_value("fmf"));
    let path = numbered_name("/tmt/tests/tests/test-", test);
    mapping_insert(&mut entries, "test", single_value(text_value(path.as_str())));
    mapping_value(entries)
}

/// What the plans section holds of a test.
fn plan_value(test: &TestDef) -> (r: serde_yaml::Value)
    ensures
        yaml_value(r) == plan_entry(test@),
{
    let tmt = own_mapping(&test.tmt);
    let mut plan = mapping_new();
    copy_entry(&mut plan, &tmt, FIELD_SUMMARY);
    copy_entry(&mut plan, &tmt, FIELD_ENABLED);
    mapping_insert(&mut plan, "discover", discover_value(test));
    copy_entry(&mut plan, &tmt, FIELD_ADJUST);
    set_flag(&mut plan, test.try_bind_storage, FIELD_TRY_BIND_STORAGE);
    set_flag(&mut plan, test.skip_if_composefs, FIELD_FIXME_SKIP_IF_COMPOSEFS);
    set_flag(&mut plan, test.skip_if_ostree, FIELD_SKIP_IF_OSTREE);
    set_flag(&mut plan, test.skip_if_uki, FIELD_FIXME_SKIP_IF_UKI);
    set_flag(&mut plan, test.fresh_install_disk, FIELD_FRESH_INSTALL_DISK);
    mapping_value(plan)
}

/// The document of the plans section.
pub fn plans_document(tests: &Vec<TestDef>) -> (r: serde_yaml::Value)
    ensures
        yaml_value(r) == Yaml::Mapping(plans_entries(test_views(tests@))),
{
    let mut doc = mapping_new();
    let mut i: usize = 0;
    let ghost views = test_views(tests@);
    while i < tests.len()
        invariant
            i <= tests@.len(),
            views == test_views(tests@),
            yaml_entries(doc) == plans_entries(views.take(i as int)),
        decreases tests@.len() - i,
    {
        let test = &tests[i];
        assert(views.take(i + 1).drop_last() =~= views.take(i as int));
        assert(views.take(i + 1).last() == test@);
        let key = numbered_name("/plan-", test);
        mapping_insert(&mut doc, key.as_str(), plan_value(test));
        i = i + 1;
    }
    assert(views.take(i as int) =~= views);
    mapping_value(doc)
}

/// The lines, with a blank line before each but the first that begins with
/// `marker`; lines of the plans section are indented anew.
fn spaced_text(yaml: &str, marker: &str, plans: bool) -> (r: String)
    ensures
        r@ == spaced(lines(yaml@), marker@, plans),
{
    let ls = lines_of(yaml);
    let mut out = String::new();
    let mut i: usize = 0;
    let ghost all = lines(yaml@);
    assert(out@ =~= seq![]);
    while i < ls.len()
        invariant
            i <= ls@.len(),
            texts(ls@) == all,
            out@ == spaced(all.take(i as int), marker@, plans),
        decreases ls@.len() - i,
    {
        let line = &ls[i];
        assert(all.take(i + 1).drop_last() =~= all.take(i as int));
        assert(all.take(i + 1).last() == line@);
        if begins_with(line.as_str(), marker) && !out.as_str().is_empty() {
            out.append("\n");
        } else {
            assert(out@ =~= out@ + seq![]);
        }
        if plans && begins_with(line.as_str(), "    - /tmt/tests/") {
            out.append("      ");
            let rest = trimmed_start(line.as_str(), Class::White);
            out.append(rest.as_str());
        } else {
            out.append(line.as_str());
        }
        out.append("\n");
        assert(out@ =~= spaced(all.take(i + 1), marker@, plans));
        i = i + 1;
    }
    assert(all.take(i as int) =~= all);
    out
}

/// The content of `tests.fmf`, from the YAML text of its entries.
pub fn tests_file(yaml: &str) -> (r: String)
    ensures
        r@ == tests_content(yaml@),
{
    let body = spaced_text(yaml, "/test-", false);
    concat2(TESTS_HEADER, body.as_str())
}

/// `integration.fmf` with `plans` between the markers; what stands outside of them
/// is kept.
pub fn splice_plans(existing: &str, plans: &str) -> (r: Result<String, IntegrationError>)
    ensures
        match splice(existing@, plans@) {
            Spliced::MissingBegin => r == Err::<String, _>(IntegrationError::MissingBegin),
            Spliced::MissingEnd => r == Err::<String, _>(IntegrationError::MissingEnd),
            Spliced::Content(s) => r matches Ok(t) && t@ == s,
        },
{
    match cut_once(existing, PLAN_MARKER_BEGIN) {
        None => Err(IntegrationError::MissingBegin),
        Some((before, rest)) => match cut_once(rest.as_str(), PLAN_MARKER_END) {
            None => Err(IntegrationError::MissingEnd),
            Some((_, after)) => {
                let head = concat3(before.as_str(), PLAN_MARKER_BEGIN, plans);
                Ok(concat3(head.as_str(), PLAN_MARKER_END, after.as_str()))
            },
        },
    }
}

/// The contents of the two generated files.
#[derive(Debug)]
pub struct Generated {
    /// The content of `tests.fmf`.
    pub tests: String,
    /// The content of `integration.fmf`.
    pub integration: String,
}

/// The two files, from the YAML texts of their documents and what
/// `integration.fmf` holds now.
///
/// A document that cannot be rendered is an error, that of the tests before that
/// of the plans; then a missing marker is.
pub open spec fn is_generated(
    r: Result<Generated, IntegrationError>,
    tests_yaml: Option<Seq<char>>,
    plans_yaml: Option<Seq<char>>,
    existing: Seq<char>,
) -> bool {
    match (tests_yaml, plans_yaml) {
        (None, _) => r == Err::<Generated, _>(IntegrationError::TestsYaml),
        (Some(_), None) => r == Err::<Generated, _>(IntegrationError::PlansYaml),
        (Some(t), Some(p)) => match splice(existing, plans_section(p)) {
            Spliced::MissingBegin => r == Err::<Generated, _>(IntegrationError::MissingBegin),
            Spliced::MissingEnd => r == Err::<Generated, _>(IntegrationError::MissingEnd),
            Spliced::Content(s) => r matches Ok(g) && g.tests@ == tests_content(t)
                && g.integration@ == s,
        },
    }
}

/// The YAML text of what a list of tests, in order, puts into the two files.
pub open spec fn documents(tests: Seq<TestView>) -> (Option<Seq<char>>, Option<Seq<char>>) {
    (
        yaml_rendered(Yaml::Mapping(tests_entries(tests))),
        yaml_rendered(Yaml::Mapping(plans_entries(tests))),
    )
}

/// Writes the two files anew, from the test files and what `integration.fmf` holds
/// now.
pub fn generate_integration(files: &Vec<TestFile>, existing: &str) -> (r: Result<
    Generated,
    IntegrationError,
>)
    ensures
        match tests_of(files@) {
            Err(i) => 0 <= i < files@.len() && (r matches Err(e) && is_file_error(e, files@, i)),
            Ok(tests) => exists|sorted: Seq<TestView>| #[trigger]
                is_sort_of(sorted, tests) && is_generated(
                    r,
                    documents(sorted).0,
                    documents(sorted).1,
                    existing@,
                ),
        },
{
    let read = match read_tests(files) {
        Ok(tests) => tests,
        Err(e) => return Err(e),
    };
    let tests = sort_tests(read);
    let tests_yaml = match render_document(&tests_document(&tests)) {
        Ok(text) => text,
        Err(_) => return Err(IntegrationError::TestsYaml),
    };
    let plans_yaml = match render_document(&plans_document(&tests)) {
        Ok(text) => text,
        Err(_) => return Err(IntegrationError::PlansYaml),
    };
    assemble(tests_yaml.as_str(), plans_yaml.as_str(), existing)
}

/// The two files, from the YAML texts of their documents and what
/// `integration.fmf` holds now.
pub fn assemble(tests_yaml: &str, plans_yaml: &str, existing: &str) -> (r: Result<
    Generated,
    IntegrationError,
>)
    ensures
        is_generated(r, Some(tests_yaml@), Some(plans_yaml@), existing@),
{
    let plans = spaced_text(plans_yaml, "/plan-", true);
    match splice_plans(existing, plans.as_str()) {
        Ok(integration) => Ok(Generated { tests: tests_file(tests_yaml), integration }),
        Err(e) => Err(e),
    }
}

/// What to do with one generated file.
#[derive(Debug, Clone, Copy, PartialEq, Eq, Structural)]
pub enum FileStep {
    /// The file holds what it should.
    Unchanged,
    /// The file is to be written.
    Write,
}

/// Whether a generated file has to be written: not where it holds its content
/// already.
pub fn file_step(existing: Option<&str>, content: &str) -> (r: FileStep)
    ensures
        r == (if crate::text::opt_str(existing) == Some(content@) {
            FileStep::Unchanged
        } else {
            FileStep::Write
        }),
{
    match existing {
        Some(e) => if same(e, content) {
            FileStep::Unchanged
        } else {
            FileStep::Write
        },
        None => FileStep::Write,
    }
}

/// A generated file that is not what it should be.
#[derive(Debug, Clone, Copy, PartialEq, Eq, Structural)]
pub enum OutOfDate {
    Tests,
    Integration,
}

/// Whether the two files on disk are what they should be; the first that is not,
/// `tests.fmf` before `integration.fmf`.
pub fn check_integration(
    generated: &Generated,
    tests_on_disk: &str,
    integration_on_disk: &str,
) -> (r: Result<(), OutOfDate>)
    ensures
        r == (if generated.tests@ != tests_on_disk@ {
            Err::<(), OutOfDate>(OutOfDate::Tests)
        } else if generated.integration@ != integration_on_disk@ {
            Err(OutOfDate::Integration)
        } else {
            Ok(())
        }),
{
    if !same(generated.tests.as_str(), tests_on_disk) {
        Err(OutOfDate::Tests)
    } else if !same(generated.integration.as_str(), integration_on_disk) {
        Err(OutOfDate::Integration)
    } else {
        Ok(())
    }
}

// ---------------------------------------------------------------------------
// Laws of the plans section
// ---------------------------------------------------------------------------

/// Replacing the plans keeps every character before the first begin marker and
/// behind the end marker that follows it.
pub proof fn law_splice_keeps_the_rest(existing: Seq<char>, plans: Seq<char>)
    requires
        splice(existing, plans) is Content,
    ensures
        ({
            let (before, rest) = split_once(existing, PLAN_MARKER_BEGIN@)->0;
            let (old_plans, after) = split_once(rest, PLAN_MARKER_END@)->0;
            &&& existing == before + PLAN_MARKER_BEGIN@ + old_plans + PLAN_MARKER_END@ + after
            &&& splice(existing, plans)->Content_0 == before + PLAN_MARKER_BEGIN@ + plans
                + PLAN_MARKER_END@ + after
        }),
{
    let (before, rest) = split_once(existing, PLAN_MARKER_BEGIN@)->0;
    let (old_plans, after) = split_once(rest, PLAN_MARKER_END@)->0;
    lemma_find(existing, PLAN_MARKER_BEGIN@, 0);
    lemma_find(rest, PLAN_MARKER_END@, 0);
    assert(existing =~= before + PLAN_MARKER_BEGIN@ + rest);
    assert(rest =~= old_plans + PLAN_MARKER_END@ + after);
    assert(existing =~= before + PLAN_MARKER_BEGIN@ + old_plans + PLAN_MARKER_END@ + after);
}

/// What stands before the first begin marker still does when what stands behind it changes.
proof fn lemma_begin_is_found_again(existing: Seq<char>, tail: Seq<char>)
    requires
        split_once(existing, PLAN_MARKER_BEGIN@) is Some,
    ensures
        ({
            let before = (split_once(existing, PLAN_MARKER_BEGIN@)->0).0;
            split_once(before + PLAN_MARKER_BEGIN@ + tail, PLAN_MARKER_BEGIN@) == Some(
                (before, tail),
            )
        }),
{
    let begin = PLAN_MARKER_BEGIN@;
    let before = (split_once(existing, begin)->0).0;
    let c = before + begin + tail;
    lemma_find(existing, begin, 0);
    lemma_find(c, begin, 0);
    assert(occurs_at(c, begin, before.len() as int)) by {
        assert(c.subrange(before.len() as int, before.len() as int + begin.len()) =~= begin);
    }
    assert forall|i: int| 0 <= i < before.len() implies !#[trigger] occurs_at(c, begin, i) by {
        if occurs_at(c, begin, i) {
            assert(c.subrange(i, i + begin.len()) =~= existing.subrange(i, i + begin.len()));
            assert(occurs_at(existing, begin, i));
        }
    }
    assert(c.skip(before.len() as int + begin.len()) =~= tail);
    assert(c.take(before.len() as int) =~= before);
}

/// The end marker behind plans that hold none is the first.
proof fn lemma_end_is_found_again(plans: Seq<char>, after: Seq<char>)
    requires
        !contains(plans, PLAN_MARKER_END@),
    ensures
        split_once(plans + PLAN_MARKER_END@ + after, PLAN_MARKER_END@) == Some((plans, after)),
{
    let end = PLAN_MARKER_END@;
    reveal_strlit("# END GENERATED PLANS\n");
    let rest = plans + end + after;
    lemma_find(rest, end, 0);
    assert(occurs_at(rest, end, plans.len() as int)) by {
        assert(rest.subrange(plans.len() as int, plans.len() as int + end.len()) =~= end);
    }
    assert forall|i: int| 0 <= i < plans.len() implies !#[trigger] occurs_at(rest, end, i) by {
        if occurs_at(rest, end, i) {
            if i + end.len() <= plans.len() {
                assert(rest.subrange(i, i + end.len()) =~= plans.subrange(i, i + end.len()));
                assert(occurs_at(plans, end, i));
            } else {
                let k = plans.len() - i;
                assert(rest.subrange(i, i + end.len())[k] == rest[plans.len() as int]);
                assert(rest[plans.len() as int] == end[0]);
                assert(end[k] == end[0]);
                assert(false);
            }
        }
    }
    assert(rest.skip(plans.len() as int + end.len()) =~= after);
    assert(rest.take(plans.len() as int) =~= plans);
}

/// Replacing the plans twice is replacing them once: what comes out of an update
/// is what the next update wants to see. Plans that hold the end marker
/// themselves are left out.
pub proof fn law_splice_is_idempotent(existing: Seq<char>, plans: Seq<char>)
    requires
        splice(existing, plans) is Content,
        !contains(plans, PLAN_MARKER_END@),
    ensures
        splice(splice(existing, plans)->Content_0, plans) == splice(existing, plans),
{
    let begin = PLAN_MARKER_BEGIN@;
    let end = PLAN_MARKER_END@;
    let (before, rest) = split_once(existing, begin)->0;
    let (old_plans, after) = split_once(rest, end)->0;
    law_splice_keeps_the_rest(existing, plans);
    let tail = plans + end + after;
    assert(before + begin + plans + end + after =~= before + begin + tail);
    lemma_begin_is_found_again(existing, tail);
    lemma_end_is_found_again(plans, after);
}

/// After an update the files are in sync: generating once more from the same
/// documents, over the file that the update wrote, gives the same two files.
pub proof fn law_update_then_check(
    generated: Generated,
    tests_yaml: Seq<char>,
    plans_yaml: Seq<char>,
    existing: Seq<char>,
    again: Result<Generated, IntegrationError>,
)
    requires
        is_generated(Ok(generated), Some(tests_yaml), Some(plans_yaml), existing),
        is_generated(again, Some(tests_yaml), Some(plans_yaml), generated.integration@),
        !contains(plans_section(plans_yaml), PLAN_MARKER_END@),
    ensures
        again matches Ok(g) && g.tests@ == generated.tests@ && g.integration@
            == generated.integration@,
{
    law_splice_is_idempotent(existing, plans_section(plans_yaml));
}

} // verus!
