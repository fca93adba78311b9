//! The plans of `integration.fmf`: what is known of each, and which of them run.

use vstd::prelude::*;

use crate::text::{
    begins_with, concat2, contains, ends_with, has_part, is_blank, is_printable_ascii, lacks,
    law_lines, law_trim, lines, lines_of, no_texts, occurs_at, push_text, same, texts, trim,
    trimmed,
};
use crate::tmt::integration::{
    copied, discover, flagged, numbered, own_entries, plan_entry, plans_entries, TestView,
    FIELD_ADJUST, FIELD_ENABLED, FIELD_FIXME_SKIP_IF_COMPOSEFS, FIELD_FIXME_SKIP_IF_UKI,
    FIELD_FRESH_INSTALL_DISK, FIELD_SKIP_IF_OSTREE, FIELD_SUMMARY, FIELD_TRY_BIND_STORAGE,
};
use crate::yaml::{
    entry, key_position, mapping_get, mapping_items, parse_document, value_as_bool,
    value_as_mapping, value_as_str, with_entry, yaml_entries, yaml_parsed, yaml_value, Yaml,
};

verus! {

/// What `integration.fmf` says of a plan.
#[derive(Debug, Clone, Copy, PartialEq, Eq, Structural)]
pub struct PlanMetadata {
    pub try_bind_storage: bool,
    pub skip_if_composefs: bool,
    pub skip_if_ostree: bool,
    pub skip_if_uki: bool,
    pub fresh_install_disk: bool,
}

impl PlanMetadata {
    /// Nothing said.
    pub open spec fn none() -> PlanMetadata {
        PlanMetadata {
            try_bind_storage: false,
            skip_if_composefs: false,
            skip_if_ostree: false,
            skip_if_uki: false,
            fresh_install_disk: false,
        }
    }

    /// The metadata with one field set anew.
    pub open spec fn with(self, field: PlanField, b: bool) -> PlanMetadata {
        match field {
            PlanField::TryBindStorage => PlanMetadata { try_bind_storage: b, ..self },
            PlanField::SkipIfComposefs => PlanMetadata { skip_if_composefs: b, ..self },
            PlanField::SkipIfUki => PlanMetadata { skip_if_uki: b, ..self },
            PlanField::SkipIfOstree => PlanMetadata { skip_if_ostree: b, ..self },
            PlanField::FreshInstallDisk => PlanMetadata { fresh_install_disk: b, ..self },
        }
    }

    /// Sets one field anew.
    fn set(&mut self, field: PlanField, b: bool)
        ensures
            *final(self) == old(self).with(field, b),
    {
        match field {
            PlanField::TryBindStorage => {
                self.try_bind_storage = b;
            },
            PlanField::SkipIfComposefs => {
                self.skip_if_composefs = b;
            },
            PlanField::SkipIfUki => {
                self.skip_if_uki = b;
            },
            PlanField::SkipIfOstree => {
                self.skip_if_ostree = b;
            },
            PlanField::FreshInstallDisk => {
                self.fresh_install_disk = b;
            },
        }
    }
}

impl Default for PlanMetadata {
    /// Nothing said.
    fn default() -> (r: Self)
        ensures
            r == PlanMetadata::none(),
    {
        PlanMetadata {
            try_bind_storage: false,
            skip_if_composefs: false,
            skip_if_ostree: false,
            skip_if_uki: false,
            fresh_install_disk: false,
        }
    }
}

/// A field of the metadata.
#[derive(Debug, Clone, Copy, PartialEq, Eq, Structural)]
pub enum PlanField {
    TryBindStorage,
    SkipIfComposefs,
    SkipIfUki,
    SkipIfOstree,
    FreshInstallDisk,
}

impl PlanField {
    /// The name of the field, without `extra-`.
    pub open spec fn key(self) -> Seq<char> {
        match self {
            PlanField::TryBindStorage => FIELD_TRY_BIND_STORAGE@,
            PlanField::SkipIfComposefs => FIELD_FIXME_SKIP_IF_COMPOSEFS@,
            PlanField::SkipIfUki => FIELD_FIXME_SKIP_IF_UKI@,
            PlanField::SkipIfOstree => FIELD_SKIP_IF_OSTREE@,
            PlanField::FreshInstallDisk => FIELD_FRESH_INSTALL_DISK@,
        }
    }

    fn key_str(self) -> (r: &'static str)
        ensures
            r@ == self.key(),
    {
        match self {
            PlanField::TryBindStorage => FIELD_TRY_BIND_STORAGE,
            PlanField::SkipIfComposefs => FIELD_FIXME_SKIP_IF_COMPOSEFS,
            PlanField::SkipIfUki => FIELD_FIXME_SKIP_IF_UKI,
            PlanField::SkipIfOstree => FIELD_SKIP_IF_OSTREE,
            PlanField::FreshInstallDisk => FIELD_FRESH_INSTALL_DISK,
        }
    }
}

// ---------------------------------------------------------------------------
// What the file says of a plan
// ---------------------------------------------------------------------------

/// The boolean that a plan's entries hold under a field.
pub open spec fn field_value(data: Seq<(Yaml, Yaml)>, field: PlanField) -> Option<bool> {
    match entry(data, "extra-"@ + field.key()) {
        Some(v) => v.as_bool(),
        None => None,
    }
}

/// The metadata after a field was read: a field that is no boolean says nothing.
pub open spec fn with_field(
    before: Option<PlanMetadata>,
    data: Seq<(Yaml, Yaml)>,
    field: PlanField,
) -> Option<PlanMetadata> {
    match field_value(data, field) {
        Some(b) => Some(
            (match before {
                Some(m) => m,
                None => PlanMetadata::none(),
            }).with(field, b),
        ),
        None => before,
    }
}

/// The metadata after the five fields were read.
pub open spec fn with_fields(before: Option<PlanMetadata>, data: Seq<(Yaml, Yaml)>) -> Option<
    PlanMetadata,
> {
    let a = with_field(before, data, PlanField::TryBindStorage);
    let b = with_field(a, data, PlanField::SkipIfComposefs);
    let c = with_field(b, data, PlanField::SkipIfUki);
    let d = with_field(c, data, PlanField::SkipIfOstree);
    with_field(d, data, PlanField::FreshInstallDisk)
}

/// What the entries of the file say of the plan `name`; `None` where they set none
/// of its fields.
pub open spec fn metadata_of(entries: Seq<(Yaml, Yaml)>, name: Seq<char>) -> Option<PlanMetadata>
    decreases entries.len(),
{
    if entries.len() == 0 {
        None
    } else {
        let before = metadata_of(entries.drop_last(), name);
        let (key, value) = entries.last();
        if key.as_text() == Some(name) && "/plan-"@.is_prefix_of(name) {
            match value.as_mapping() {
                Some(data) => with_fields(before, data),
                None => before,
            }
        } else {
            before
        }
    }
}

/// A plan and what the file says of it.
#[derive(Debug)]
pub struct PlanEntry {
    pub name: String,
    pub metadata: PlanMetadata,
}

/// The first place of a plan in a table, from `from` on.
pub open spec fn place(table: Seq<PlanEntry>, name: Seq<char>, from: int) -> Option<int>
    decreases table.len() - from,
{
    if from < 0 || from >= table.len() {
        None
    } else if table[from].name@ == name {
        Some(from)
    } else {
        place(table, name, from + 1)
    }
}

/// What a table says of a plan.
pub open spec fn lookup(table: Seq<PlanEntry>, name: Seq<char>) -> Option<PlanMetadata> {
    match place(table, name, 0) {
        Some(i) => Some(table[i].metadata),
        None => None,
    }
}

/// Whether no plan stands in a table twice.
pub open spec fn distinct(table: Seq<PlanEntry>) -> bool {
    forall|i: int, j: int|
        0 <= i < j < table.len() ==> (#[trigger] table[i]).name@ != (#[trigger] table[j]).name@
}

/// `place` finds the plan, and says so where there is none.
proof fn lemma_place(table: Seq<PlanEntry>, name: Seq<char>, from: int)
    requires
        0 <= from,
    ensures
        match place(table, name, from) {
            Some(i) => from <= i < table.len() && table[i].name@ == name && forall|j: int|
                from <= j < i ==> (#[trigger] table[j]).name@ != name,
            None => forall|j: int|
                from <= j < table.len() ==> (#[trigger] table[j]).name@ != name,
        },
    decreases table.len() - from,
{
    if from < table.len() && table[from].name@ != name {
        lemma_place(table, name, from + 1);
    }
}

/// In a table without repetitions, where a plan stands is its place.
proof fn lemma_lookup_at(table: Seq<PlanEntry>, i: int)
    requires
        distinct(table),
        0 <= i < table.len(),
    ensures
        lookup(table, table[i].name@) == Some(table[i].metadata),
{
    lemma_place(table, table[i].name@, 0);
}

/// A change of one plan's metadata leaves the others as they are.
proof fn lemma_lookup_update(table: Seq<PlanEntry>, new: Seq<PlanEntry>, i: int)
    requires
        distinct(table),
        0 <= i < table.len(),
        new.len() == table.len(),
        forall|j: int| 0 <= j < table.len() && j != i ==> #[trigger] new[j] == table[j],
        new[i].name@ == table[i].name@,
    ensures
        distinct(new),
        lookup(new, table[i].name@) == Some(new[i].metadata),
        forall|name: Seq<char>|
            name != table[i].name@ ==> #[trigger] lookup(new, name) == lookup(table, name),
{
    assert forall|a: int, b: int| 0 <= a < b < new.len() implies (#[trigger] new[a]).name@ != (
    #[trigger] new[b]).name@ by {
        assert(table[a].name@ != table[b].name@);
    }
    lemma_lookup_at(new, i);
    assert forall|name: Seq<char>| name != table[i].name@ implies #[trigger] lookup(new, name)
        == lookup(table, name) by {
        lemma_place(table, name, 0);
        lemma_place(new, name, 0);
        match place(table, name, 0) {
            Some(k) => {
                assert(new[k] == table[k]);
                lemma_lookup_at(new, k);
            },
            None => {
                match place(new, name, 0) {
                    Some(k) => {
                        assert(table[k].name@ == name);
                    },
                    None => {},
                }
            },
        }
    }
}

/// A plan that comes new leaves the others as they are.
proof fn lemma_lookup_push(table: Seq<PlanEntry>, e: PlanEntry)
    requires
        distinct(table),
        lookup(table, e.name@) is None,
    ensures
        distinct(table.push(e)),
        lookup(table.push(e), e.name@) == Some(e.metadata),
        forall|name: Seq<char>|
            name != e.name@ ==> #[trigger] lookup(table.push(e), name) == lookup(table, name),
{
    let new = table.push(e);
    lemma_place(table, e.name@, 0);
    assert(distinct(new));
    lemma_lookup_at(new, table.len() as int);
    assert forall|name: Seq<char>| name != e.name@ implies #[trigger] lookup(new, name) == lookup(
        table,
        name,
    ) by {
        lemma_place(table, name, 0);
        lemma_place(new, name, 0);
        match place(table, name, 0) {
            Some(k) => {
                assert(new[k] == table[k]);
                lemma_lookup_at(new, k);
            },
            None => {
                match place(new, name, 0) {
                    Some(k) => {
                        if k < table.len() {
                            assert(table[k].name@ == name);
                        }
                    },
                    None => {},
                }
            },
        }
    }
}

// ---------------------------------------------------------------------------
// Reading the file
// ---------------------------------------------------------------------------

/// Sets a field of a plan, which comes into the table where it was not.
fn set_field(table: &mut Vec<PlanEntry>, name: &str, field: PlanField, b: bool)
    requires
        distinct(old(table)@),
    ensures
        distinct(final(table)@),
        lookup(final(table)@, name@) == Some(
            (match lookup(old(table)@, name@) {
                Some(m) => m,
                None => PlanMetadata::none(),
            }).with(field, b),
        ),
        forall|other: Seq<char>|
            other != name@ ==> #[trigger] lookup(final(table)@, other) == lookup(
                old(table)@,
                other,
            ),
{
    let ghost before = table@;
    let mut i: usize = 0;
    while i < table.len()
        invariant
            i <= table@.len(),
            table@ == before,
            distinct(before),
            before == old(table)@,
            forall|j: int| 0 <= j < i ==> (#[trigger] before[j]).name@ != name@,
        decreases table@.len() - i,
    {
        if same(table[i].name.as_str(), name) {
            let mut metadata = table[i].metadata;
            metadata.set(field, b);
            let renamed = table[i].name.clone();
            table.set(i, PlanEntry { name: renamed, metadata });
            proof {
                lemma_lookup_at(before, i as int);
                lemma_lookup_update(before, table@, i as int);
            }
            return ;
        }
        i = i + 1;
    }
    proof {
        lemma_place(before, name@, 0);
    }
    let mut metadata = PlanMetadata::default();
    metadata.set(field, b);
    let e = PlanEntry { name: name.to_string(), metadata };
    proof {
        lemma_lookup_push(before, e);
    }
    table.push(e);
}

/// Reads a field of a plan.
fn read_field(
    table: &mut Vec<PlanEntry>,
    name: &str,
    data: &serde_yaml::Mapping,
    field: PlanField,
)
    requires
        distinct(old(table)@),
    ensures
        distinct(final(table)@),
        lookup(final(table)@, name@) == with_field(
            lookup(old(table)@, name@),
            yaml_entries(*data),
            field,
        ),
        forall|other: Seq<char>|
            other != name@ ==> #[trigger] lookup(final(table)@, other) == lookup(
                old(table)@,
                other,
            ),
{
    let key = concat2("extra-", field.key_str());
    match mapping_get(data, key.as_str()) {
        Some(v) => match value_as_bool(v) {
            Some(b) => set_field(table, name, field, b),
            None => {},
        },
        None => {},
    }
}

/// Why the plans of `integration.fmf` cannot be read.
#[derive(Debug)]
pub enum PlansError {
    Yaml(serde_yaml::Error),
    NotAMapping,
}

/// Reads from the content of `integration.fmf` what it says of each plan.
///
/// Plans that set none of the fields are left out of the table.
pub fn parse_plan_metadata(content: &str) -> (r: Result<Vec<PlanEntry>, PlansError>)
    ensures
        match yaml_parsed(content@) {
            None => r matches Err(PlansError::Yaml(_)),
            Some(doc) => match doc.as_mapping() {
                None => r matches Err(PlansError::NotAMapping),
                Some(entries) => r matches Ok(table) && is_table_of(table@, entries),
            },
        },
{
    let doc = match parse_document(content) {
        Ok(doc) => doc,
        Err(e) => return Err(PlansError::Yaml(e)),
    };
    match value_as_mapping(&doc) {
        Some(m) => Ok(plan_table(m)),
        None => Err(PlansError::NotAMapping),
    }
}

/// Whether a table says of each plan, once, what the entries of the file say.
pub open spec fn is_table_of(table: Seq<PlanEntry>, entries: Seq<(Yaml, Yaml)>) -> bool {
    &&& distinct(table)
    &&& forall|name: Seq<char>| #[trigger] lookup(table, name) == metadata_of(entries, name)
}

/// What the entries of `integration.fmf` say of each plan.
pub fn plan_table(m: &serde_yaml::Mapping) -> (r: Vec<PlanEntry>)
    ensures
        is_table_of(r@, yaml_entries(*m)),
{
    let items = mapping_items(m);
    let ghost entries = yaml_entries(*m);
    let mut table: Vec<PlanEntry> = Vec::new();
    let mut i: usize = 0;
    assert(entries.take(0).len() == 0);
    while i < items.len()
        invariant
            i <= items@.len(),
            items@.len() == entries.len(),
            forall|i: int|
                0 <= i < items@.len() ==> (
                yaml_value(*(#[trigger] items@[i]).0),
                yaml_value(*items@[i].1),
                ) == entries[i],
            is_table_of(table@, entries.take(i as int)),
        decreases items@.len() - i,
    {
        let (key, value) = items[i];
        let ghost before = table@;
        let ghost now = entries.take(i + 1);
        assert(now.drop_last() =~= entries.take(i as int));
        assert((yaml_value(*items@[i as int].0), yaml_value(*items@[i as int].1))
            == entries[i as int]);
        assert(now.last() == (yaml_value(*key), yaml_value(*value)));
        match value_as_str(key) {
            Some(name) => {
                if begins_with(name, "/plan-") {
                    match value_as_mapping(value) {
                        Some(data) => {
                            read_field(&mut table, name, data, PlanField::TryBindStorage);
                            read_field(&mut table, name, data, PlanField::SkipIfComposefs);
                            read_field(&mut table, name, data, PlanField::SkipIfUki);
                            read_field(&mut table, name, data, PlanField::SkipIfOstree);
                            read_field(&mut table, name, data, PlanField::FreshInstallDisk);
                            assert forall|other: Seq<char>| #[trigger]
                                lookup(table@, other) == metadata_of(now, other) by {
                                assert(lookup(before, other) == metadata_of(
                                    now.drop_last(),
                                    other,
                                ));
                            }
                        },
                        None => {},
                    }
                }
            },
            None => {},
        }
        assert forall|other: Seq<char>| #[trigger] lookup(table@, other) == metadata_of(
            now,
            other,
        ) by {
            assert(lookup(before, other) == metadata_of(now.drop_last(), other));
        }
        i = i + 1;
    }
    assert(entries.take(i as int) =~= entries);
    table
}

// ---------------------------------------------------------------------------
// What is written and what is read
// ---------------------------------------------------------------------------

/// What was set last is found; what was there before is found under the other keys.
pub proof fn lemma_entry_of_with_entry(entries: Seq<(Yaml, Yaml)>, a: Seq<char>, v: Yaml, b: Seq<char>)
    ensures
        entry(with_entry(entries, a, v), b) == (if a == b {
            Some(v)
        } else {
            entry(entries, b)
        }),
{
    let new = with_entry(entries, a, v);
    lemma_key_position(entries, a, 0);
    lemma_key_position(entries, b, 0);
    lemma_key_position(new, b, 0);
    if a == b {
        match key_position(entries, a, 0) {
            Some(i) => {
                assert(new[i].0 == Yaml::Text(a));
                let k = key_position(new, b, 0)->0;
                if k < i {
                    assert(new[k] == entries[k]);
                }
            },
            None => {
                let n = entries.len() as int;
                assert(new[n] == (Yaml::Text(a), v));
                let k = key_position(new, b, 0)->0;
                if k < n {
                    assert(new[k] == entries[k]);
                }
            },
        }
    } else {
        match key_position(entries, b, 0) {
            Some(i) => {
                assert(new[i].0 == entries[i].0);
                let k = key_position(new, b, 0)->0;
                if k < i {
                    assert(new[k].0 == entries[k].0);
                }
                assert(new[i] == entries[i]);
            },
            None => {
                match key_position(new, b, 0) {
                    Some(k) => {
                        if k < entries.len() {
                            assert(new[k].0 == entries[k].0);
                        }
                    },
                    None => {},
                }
            },
        }
    }
}

/// The position of a key is the first there is.
pub proof fn lemma_key_position(entries: Seq<(Yaml, Yaml)>, key: Seq<char>, from: int)
    requires
        0 <= from,
    ensures
        match key_position(entries, key, from) {
            Some(i) => {
                &&& from <= i < entries.len()
                &&& entries[i].0 == Yaml::Text(key)
                &&& forall|j: int| from <= j < i ==> (#[trigger] entries[j]).0 != Yaml::Text(key)
            },
            None => forall|j: int|
                from <= j < entries.len() ==> (#[trigger] entries[j]).0 != Yaml::Text(key),
        },
    decreases entries.len() - from,
{
    if from < entries.len() && entries[from].0 != Yaml::Text(key) {
        lemma_key_position(entries, key, from + 1);
    }
}

/// Whether the keys of entries are texts, none of them twice.
pub open spec fn plain_keys(entries: Seq<(Yaml, Yaml)>) -> bool {
    &&& forall|i: int| 0 <= i < entries.len() ==> (#[trigger] entries[i]).0 is Text
    &&& forall|i: int, j: int|
        0 <= i < j < entries.len() ==> (#[trigger] entries[i]).0 != (#[trigger] entries[j]).0
}

/// Setting an entry keeps the keys plain.
proof fn lemma_with_entry_is_plain(entries: Seq<(Yaml, Yaml)>, key: Seq<char>, v: Yaml)
    requires
        plain_keys(entries),
    ensures
        plain_keys(with_entry(entries, key, v)),
{
    let new = with_entry(entries, key, v);
    lemma_key_position(entries, key, 0);
    assert forall|i: int| 0 <= i < new.len() implies (#[trigger] new[i]).0 is Text by {
        if i < entries.len() {
            assert(entries[i].0 is Text);
        }
    }
    assert forall|i: int, j: int| 0 <= i < j < new.len() implies (#[trigger] new[i]).0 != (
    #[trigger] new[j]).0 by {
        if j < entries.len() {
            assert(entries[i].0 != entries[j].0);
        }
    }
}

/// Where the keys are plain, only the entry of a plan speaks of it.
proof fn lemma_metadata_of_plain(entries: Seq<(Yaml, Yaml)>, name: Seq<char>)
    requires
        plain_keys(entries),
        "/plan-"@.is_prefix_of(name),
    ensures
        metadata_of(entries, name) == (match entry(entries, name) {
            Some(v) => match v.as_mapping() {
                Some(data) => with_fields(None, data),
                None => None,
            },
            None => None,
        }),
    decreases entries.len(),
{
    lemma_key_position(entries, name, 0);
    if entries.len() > 0 {
        let before = entries.drop_last();
        let n = before.len() as int;
        assert(plain_keys(before)) by {
            assert forall|i: int| 0 <= i < n implies (#[trigger] before[i]).0 is Text by {
                assert(entries[i].0 is Text);
            }
            assert forall|i: int, j: int| 0 <= i < j < n implies (#[trigger] before[i]).0 != (
            #[trigger] before[j]).0 by {
                assert(entries[i].0 != entries[j].0);
            }
        }
        lemma_metadata_of_plain(before, name);
        lemma_key_position(before, name, 0);
        assert(entries[n].0 is Text);
        if entries[n].0 == Yaml::Text(name) {
            match key_position(before, name, 0) {
                Some(k) => {
                    assert(entries[k].0 != entries[n].0);
                },
                None => {},
            }
            let k = key_position(entries, name, 0)->0;
            if k < n {
                assert(entries[k].0 != entries[n].0);
            }
        } else {
            match key_position(before, name, 0) {
                Some(k) => {
                    assert(entries[k] == before[k]);
                    let m = key_position(entries, name, 0)->0;
                    if m < k {
                        assert(before[m] == entries[m]);
                    }
                },
                None => {
                    match key_position(entries, name, 0) {
                        Some(m) => {
                            assert(before[m] == entries[m]);
                        },
                        None => {},
                    }
                },
            }
        }
    }
}

/// The key of a test's plan.
pub open spec fn plan_key(test: TestView) -> Seq<char> {
    numbered("/plan-"@, test)
}

/// The plans are as the last test with their key says.
pub proof fn lemma_plans_entries(tests: Seq<TestView>, i: int)
    requires
        0 <= i < tests.len(),
        forall|j: int| i < j < tests.len() ==> plan_key(#[trigger] tests[j]) != plan_key(tests[i]),
    ensures
        plain_keys(plans_entries(tests)),
        entry(plans_entries(tests), plan_key(tests[i])) == Some(plan_entry(tests[i])),
    decreases tests.len(),
{
    let before = tests.drop_last();
    let last = tests.last();
    lemma_plans_are_plain(tests);
    lemma_entry_of_with_entry(
        plans_entries(before),
        plan_key(last),
        plan_entry(last),
        plan_key(tests[i]),
    );
    if i < before.len() {
        assert(tests[tests.len() - 1] == last);
        assert forall|j: int| i < j < before.len() implies plan_key(#[trigger] before[j])
            != plan_key(before[i]) by {
            assert(before[j] == tests[j]);
        }
        lemma_plans_entries(before, i);
    }
}

/// The keys of the plans are plain.
proof fn lemma_plans_are_plain(tests: Seq<TestView>)
    ensures
        plain_keys(plans_entries(tests)),
    decreases tests.len(),
{
    if tests.len() > 0 {
        lemma_plans_are_plain(tests.drop_last());
        lemma_with_entry_is_plain(
            plans_entries(tests.drop_last()),
            plan_key(tests.last()),
            plan_entry(tests.last()),
        );
    }
}

/// The key of a field stands for that field alone, and for nothing else that a plan holds.
proof fn lemma_field_keys()
    ensures
        forall|f: PlanField, g: PlanField|
            #![trigger f.key(), g.key()]
            f != g ==> "extra-"@ + f.key() != "extra-"@ + g.key(),
        forall|f: PlanField|
            #![trigger f.key()]
            {
                let k = "extra-"@ + f.key();
                k != FIELD_SUMMARY@ && k != FIELD_ENABLED@ && k != FIELD_ADJUST@ && k
                    != "discover"@
            },
{
    reveal_strlit("extra-");
    reveal_strlit("try_bind_storage");
    reveal_strlit("fixme_skip_if_composefs");
    reveal_strlit("fixme_skip_if_uki");
    reveal_strlit("skip_if_ostree");
    reveal_strlit("fresh_install_disk");
    reveal_strlit("summary");
    reveal_strlit("enabled");
    reveal_strlit("adjust");
    reveal_strlit("discover");
    assert forall|f: PlanField, g: PlanField|
        #![trigger f.key(), g.key()]
        f != g implies "extra-"@ + f.key() != "extra-"@ + g.key() by {
        assert(("extra-"@ + f.key()).len() == 6 + f.key().len());
        assert(("extra-"@ + g.key()).len() == 6 + g.key().len());
    }
    assert forall|f: PlanField|
        #![trigger f.key()]
        {
            let k = "extra-"@ + f.key();
            k != FIELD_SUMMARY@ && k != FIELD_ENABLED@ && k != FIELD_ADJUST@ && k != "discover"@
        } by {
        assert(("extra-"@ + f.key()).len() == 6 + f.key().len());
        assert(f.key().len() >= 14);
    }
}

/// What a field of a plan says after a value was copied: what it said before.
proof fn lemma_field_after_copy(
    entries: Seq<(Yaml, Yaml)>,
    from: Seq<(Yaml, Yaml)>,
    key: Seq<char>,
    f: PlanField,
)
    requires
        "extra-"@ + f.key() != key,
    ensures
        field_value(copied(entries, from, key), f) == field_value(entries, f),
{
    match entry(from, key) {
        Some(v) => lemma_entry_of_with_entry(entries, key, v, "extra-"@ + f.key()),
        None => {},
    }
}

/// What a field of a plan says after a flag was set.
proof fn lemma_field_after_flag(entries: Seq<(Yaml, Yaml)>, set: bool, g: PlanField, f: PlanField)
    ensures
        field_value(flagged(entries, set, g.key()), f) == (if set && f == g {
            Some(true)
        } else {
            field_value(entries, f)
        }),
{
    lemma_field_keys();
    let a = f.key();
    let b = g.key();
    if set {
        lemma_entry_of_with_entry(entries, "extra-"@ + b, Yaml::Bool(true), "extra-"@ + a);
    }
}

/// Whether a field is set by a test.
pub open spec fn test_flag(test: TestView, f: PlanField) -> bool {
    match f {
        PlanField::TryBindStorage => test.try_bind_storage,
        PlanField::SkipIfComposefs => test.skip_if_composefs,
        PlanField::SkipIfUki => test.skip_if_uki,
        PlanField::SkipIfOstree => test.skip_if_ostree,
        PlanField::FreshInstallDisk => test.fresh_install_disk,
    }
}

/// A field of a test's plan is there, and true, exactly if the test sets it.
proof fn lemma_plan_fields(test: TestView, f: PlanField)
    ensures
        plan_entry(test) is Mapping,
        field_value(plan_entry(test)->Mapping_0, f) == (if test_flag(test, f) {
            Some(true)
        } else {
            None
        }),
{
    lemma_field_keys();
    let key = f.key();
    let tmt = own_entries(test.tmt);
    let none: Seq<(Yaml, Yaml)> = seq![];
    let a1 = copied(none, tmt, FIELD_SUMMARY@);
    let a2 = copied(a1, tmt, FIELD_ENABLED@);
    let a3 = with_entry(a2, "discover"@, discover(test));
    let b = copied(a3, tmt, FIELD_ADJUST@);
    lemma_field_after_copy(none, tmt, FIELD_SUMMARY@, f);
    lemma_field_after_copy(a1, tmt, FIELD_ENABLED@, f);
    lemma_entry_of_with_entry(a2, "discover"@, discover(test), "extra-"@ + f.key());
    lemma_field_after_copy(a3, tmt, FIELD_ADJUST@, f);
    assert(entry(none, "extra-"@ + f.key()) is None);
    let c = flagged(b, test.try_bind_storage, PlanField::TryBindStorage.key());
    let d = flagged(c, test.skip_if_composefs, PlanField::SkipIfComposefs.key());
    let e = flagged(d, test.skip_if_ostree, PlanField::SkipIfOstree.key());
    let g = flagged(e, test.skip_if_uki, PlanField::SkipIfUki.key());
    lemma_field_after_flag(b, test.try_bind_storage, PlanField::TryBindStorage, f);
    lemma_field_after_flag(c, test.skip_if_composefs, PlanField::SkipIfComposefs, f);
    lemma_field_after_flag(d, test.skip_if_ostree, PlanField::SkipIfOstree, f);
    lemma_field_after_flag(e, test.skip_if_uki, PlanField::SkipIfUki, f);
    lemma_field_after_flag(g, test.fresh_install_disk, PlanField::FreshInstallDisk, f);
}

/// What a test says of its plan.
pub open spec fn metadata_of_test(test: TestView) -> PlanMetadata {
    PlanMetadata {
        try_bind_storage: test.try_bind_storage,
        skip_if_composefs: test.skip_if_composefs,
        skip_if_ostree: test.skip_if_ostree,
        skip_if_uki: test.skip_if_uki,
        fresh_install_disk: test.fresh_install_disk,
    }
}

/// What is read of the plans that were written is what their tests say: a plan without a flag is
/// not told of, any other with its flags. Of tests that share a number and a name the last
/// counts.
pub proof fn law_written_plans_are_read(tests: Seq<TestView>, i: int)
    requires
        0 <= i < tests.len(),
        forall|j: int| i < j < tests.len() ==> plan_key(#[trigger] tests[j]) != plan_key(tests[i]),
    ensures
        metadata_of(plans_entries(tests), plan_key(tests[i])) == (if metadata_of_test(tests[i])
            == PlanMetadata::none() {
            None
        } else {
            Some(metadata_of_test(tests[i]))
        }),
{
    let test = tests[i];
    let name = plan_key(test);
    assert("/plan-"@.is_prefix_of(name)) by {
        assert("/plan-"@ =~= name.subrange(0, "/plan-"@.len() as int));
    }
    lemma_plans_entries(tests, i);
    lemma_metadata_of_plain(plans_entries(tests), name);
    lemma_plan_fields(test, PlanField::TryBindStorage);
    lemma_plan_fields(test, PlanField::SkipIfComposefs);
    lemma_plan_fields(test, PlanField::SkipIfUki);
    lemma_plan_fields(test, PlanField::SkipIfOstree);
    lemma_plan_fields(test, PlanField::FreshInstallDisk);
}

// ---------------------------------------------------------------------------
// Looking a plan up
// ---------------------------------------------------------------------------

/// The first place, from `from` on, whose name ends that of the plan: tmt names plans
/// like `/tmt/plans/integration/plan-01-readonly`, the table `/plan-01-readonly`.
pub open spec fn matching(table: Seq<PlanEntry>, plan: Seq<char>, from: int) -> Option<int>
    decreases table.len() - from,
{
    if from < 0 || from >= table.len() {
        None
    } else if table[from].name@.is_suffix_of(plan) {
        Some(from)
    } else {
        matching(table, plan, from + 1)
    }
}

/// What a table says of the plan that tmt names `plan`; nothing where it is not in
/// the table.
pub open spec fn plan_of(table: Seq<PlanEntry>, plan: Seq<char>) -> PlanMetadata {
    match matching(table, plan, 0) {
        Some(i) => table[i].metadata,
        None => PlanMetadata::none(),
    }
}

/// What a table says of the plan that tmt names `plan`.
pub fn metadata_for(table: &Vec<PlanEntry>, plan: &str) -> (r: PlanMetadata)
    ensures
        r == plan_of(table@, plan@),
{
    let mut i: usize = 0;
    while i < table.len()
        invariant
            i <= table@.len(),
            matching(table@, plan@, 0) == matching(table@, plan@, i as int),
        decreases table@.len() - i,
    {
        if ends_with(plan, table[i].name.as_str()) {
            return table[i].metadata;
        }
        i = i + 1;
    }
    PlanMetadata::default()
}

/// `matching` finds a place, and says so where there is none.
proof fn lemma_matching(table: Seq<PlanEntry>, plan: Seq<char>, from: int)
    requires
        0 <= from,
    ensures
        match matching(table, plan, from) {
            Some(i) => from <= i < table.len() && table[i].name@.is_suffix_of(plan),
            None => forall|j: int|
                from <= j < table.len() ==> !(#[trigger] table[j]).name@.is_suffix_of(plan),
        },
    decreases table.len() - from,
{
    if from < table.len() && !table[from].name@.is_suffix_of(plan) {
        lemma_matching(table, plan, from + 1);
    }
}

/// Whether at most one plan of a table has a name that ends that of `plan`.
pub open spec fn unambiguous(table: Seq<PlanEntry>, plan: Seq<char>) -> bool {
    forall|i: int, j: int|
        0 <= i < j < table.len() ==> !((#[trigger] table[i]).name@.is_suffix_of(plan) && (
        #[trigger] table[j]).name@.is_suffix_of(plan))
}

/// The order in which a table lists the plans does not matter: two tables of the same
/// file say the same of a plan that at most one of their names ends.
pub proof fn law_table_order_does_not_matter(
    a: Seq<PlanEntry>,
    b: Seq<PlanEntry>,
    entries: Seq<(Yaml, Yaml)>,
    plan: Seq<char>,
)
    requires
        is_table_of(a, entries),
        is_table_of(b, entries),
        unambiguous(a, plan),
    ensures
        plan_of(a, plan) == plan_of(b, plan),
{
    lemma_matching(a, plan, 0);
    lemma_matching(b, plan, 0);
    match matching(b, plan, 0) {
        Some(j) => {
            let name = b[j].name@;
            lemma_lookup_at(b, j);
            assert(lookup(a, name) == lookup(b, name));
            lemma_place(a, name, 0);
            let i = place(a, name, 0)->0;
            let k = matching(a, plan, 0)->0;
            assert(a[i].name@.is_suffix_of(plan));
            if k < i {
                assert(a[k].name@.is_suffix_of(plan));
            }
            if i < k {
                assert(a[k].name@.is_suffix_of(plan));
            }
            assert(i == k);
        },
        None => match matching(a, plan, 0) {
            Some(i) => {
                let name = a[i].name@;
                lemma_lookup_at(a, i);
                assert(lookup(a, name) == lookup(b, name));
                lemma_place(b, name, 0);
                let j = place(b, name, 0)->0;
                assert(b[j].name@.is_suffix_of(plan));
            },
            None => {},
        },
    }
}

// ---------------------------------------------------------------------------
// Which plans run
// ---------------------------------------------------------------------------

/// The lines without white space at either end.
pub open spec fn trimmed_lines(output: Seq<char>) -> Seq<Seq<char>> {
    Seq::new(lines(output).len(), |i: int| trim(lines(output)[i]))
}

/// The plans that `tmt plan ls` lists: the lines that begin with a slash.
pub open spec fn listed_plans(output: Seq<char>) -> Seq<Seq<char>> {
    trimmed_lines(output).filter(|line: Seq<char>| "/"@.is_prefix_of(line))
}

/// What decides which plans run.
#[derive(Debug)]
pub struct Selection {
    /// Parts of plan names; where there are any, a plan has to hold one of them.
    pub filters: Vec<String>,
    pub composefs_backend: bool,
    /// Whether the system boots a unified kernel image.
    pub uki: bool,
}

impl Selection {
    /// Whether the plan runs.
    pub open spec fn wants(&self, table: Seq<PlanEntry>, plan: Seq<char>) -> bool {
        let m = plan_of(table, plan);
        &&& self.filters@.len() == 0 || exists|i: int|
            0 <= i < self.filters@.len() && contains(plan, #[trigger] self.filters@[i]@)
        &&& if self.composefs_backend {
            !m.skip_if_composefs
        } else {
            !m.skip_if_ostree
        }
        &&& self.uki ==> !m.skip_if_uki
    }

    /// Whether the plan runs.
    pub fn keeps(&self, table: &Vec<PlanEntry>, plan: &str) -> (r: bool)
        ensures
            r == self.wants(table@, plan@),
    {
        let m = metadata_for(table, plan);
        let skipped = if self.composefs_backend {
            m.skip_if_composefs
        } else {
            m.skip_if_ostree
        };
        !skipped && !(self.uki && m.skip_if_uki) && self.matches(plan)
    }

    /// Whether the plan passes the filters.
    fn matches(&self, plan: &str) -> (r: bool)
        ensures
            r == (self.filters@.len() == 0 || exists|i: int|
                0 <= i < self.filters@.len() && contains(plan@, #[trigger] self.filters@[i]@)),
    {
        if self.filters.len() == 0 {
            return true;
        }
        let mut i: usize = 0;
        while i < self.filters.len()
            invariant
                i <= self.filters@.len(),
                forall|j: int| 0 <= j < i ==> !contains(plan@, #[trigger] self.filters@[j]@),
            decreases self.filters@.len() - i,
        {
            if has_part(plan, self.filters[i].as_str()) {
                return true;
            }
            i = i + 1;
        }
        false
    }
}

/// The plans that `tmt plan ls` lists.
pub fn plans_listed(output: &str) -> (r: Vec<String>)
    ensures
        texts(r@) == listed_plans(output@),
{
    let ls = lines_of(output);
    let ghost all = trimmed_lines(output@);
    let ghost pred = |line: Seq<char>| "/"@.is_prefix_of(line);
    let mut out = no_texts();
    let mut i: usize = 0;
    proof {
        reveal(Seq::filter);
        assert(all.take(0) =~= seq![]);
    }
    while i < ls.len()
        invariant
            i <= ls@.len(),
            texts(ls@) == lines(output@),
            all == trimmed_lines(output@),
            pred == (|line: Seq<char>| "/"@.is_prefix_of(line)),
            texts(out@) == all.take(i as int).filter(pred),
        decreases ls@.len() - i,
    {
        let line = trimmed(ls[i].as_str());
        proof {
            reveal(Seq::filter);
            assert(lines(output@)[i as int] == ls@[i as int]@);
            assert(all[i as int] == line@);
            assert(all.take(i + 1).drop_last() =~= all.take(i as int));
        }
        if begins_with(line.as_str(), "/") {
            push_text(&mut out, line.as_str());
        }
        i = i + 1;
    }
    assert(all.take(i as int) =~= all);
    out
}

/// The plans that run, of those that are listed and in their order.
pub fn select_plans(listed: &Vec<String>, selection: &Selection, table: &Vec<PlanEntry>) -> (r: Vec<
    String,
>)
    ensures
        texts(r@) == texts(listed@).filter(|plan: Seq<char>| selection.wants(table@, plan)),
{
    let ghost all = texts(listed@);
    let ghost pred = |plan: Seq<char>| selection.wants(table@, plan);
    let mut out = no_texts();
    let mut i: usize = 0;
    proof {
        reveal(Seq::filter);
        assert(all.take(0) =~= seq![]);
    }
    while i < listed.len()
        invariant
            i <= listed@.len(),
            all == texts(listed@),
            pred == (|plan: Seq<char>| selection.wants(table@, plan)),
            texts(out@) == all.take(i as int).filter(pred),
        decreases listed@.len() - i,
    {
        proof {
            reveal(Seq::filter);
            assert(all.take(i + 1).drop_last() =~= all.take(i as int));
            assert(all[i as int] == listed@[i as int]@);
        }
        if selection.keeps(table, listed[i].as_str()) {
            push_text(&mut out, listed[i].as_str());
        }
        i = i + 1;
    }
    assert(all.take(i as int) =~= all);
    out
}

/// Whether some of the plans installs a second disk.
pub open spec fn some_fresh_install(plans: Seq<Seq<char>>, table: Seq<PlanEntry>) -> bool {
    exists|i: int|
        0 <= i < plans.len() && plan_of(table, #[trigger] plans[i]).fresh_install_disk
}

/// Whether some of the plans installs a second disk.
pub fn fresh_install_selected(plans: &Vec<String>, table: &Vec<PlanEntry>) -> (r: bool)
    ensures
        r == some_fresh_install(texts(plans@), table@),
{
    let mut i: usize = 0;
    while i < plans.len()
        invariant
            i <= plans@.len(),
            forall|j: int|
                0 <= j < i ==> !plan_of(table@, #[trigger] texts(plans@)[j]).fresh_install_disk,
        decreases plans@.len() - i,
    {
        assert(texts(plans@)[i as int] == plans@[i as int]@);
        if metadata_for(table, plans[i].as_str()).fresh_install_disk {
            return true;
        }
        i = i + 1;
    }
    false
}

/// How the runner comes to its libvirt connection.
#[derive(Debug, Clone, Copy, PartialEq, Eq, Structural)]
pub enum ConnectionStep {
    /// Resolve the connection that was asked for.
    Resolve,
    /// Go on without one.
    Without,
    /// A selected plan needs a connection, and none was given.
    Missing,
}

/// How the runner comes to its libvirt connection: a plan that installs a second disk
/// needs one.
pub fn connection_step(given: bool, plans: &Vec<String>, table: &Vec<PlanEntry>) -> (r:
    ConnectionStep)
    ensures
        r == (if given {
            ConnectionStep::Resolve
        } else if some_fresh_install(texts(plans@), table@) {
            ConnectionStep::Missing
        } else {
            ConnectionStep::Without
        }),
{
    if given {
        ConnectionStep::Resolve
    } else if fresh_install_selected(plans, table) {
        ConnectionStep::Missing
    } else {
        ConnectionStep::Without
    }
}

// ---------------------------------------------------------------------------
// Laws of the table and the selection
// ---------------------------------------------------------------------------

/// The boolean under a key.
pub open spec fn bool_under(data: Seq<(Yaml, Yaml)>, key: Seq<char>) -> Option<bool> {
    match entry(data, key) {
        Some(v) => v.as_bool(),
        None => None,
    }
}

/// Each flag of a plan is read from its own key, and is set exactly if that says `true`; a plan
/// under whose keys there is no boolean is not told of, and neither is what is no plan.
pub proof fn law_flags_are_read(entries: Seq<(Yaml, Yaml)>, name: Seq<char>, data: Seq<(Yaml, Yaml)>)
    requires
        plain_keys(entries),
        entry(entries, "/plan-"@ + name) == Some(Yaml::Mapping(data)),
    ensures
        ({
            let bind = bool_under(data, "extra-try_bind_storage"@);
            let composefs = bool_under(data, "extra-fixme_skip_if_composefs"@);
            let ostree = bool_under(data, "extra-skip_if_ostree"@);
            let uki = bool_under(data, "extra-fixme_skip_if_uki"@);
            let fresh = bool_under(data, "extra-fresh_install_disk"@);
            metadata_of(entries, "/plan-"@ + name) == if bind is None && composefs is None && ostree
                is None && uki is None && fresh is None {
                None
            } else {
                Some(
                    PlanMetadata {
                        try_bind_storage: bind == Some(true),
                        skip_if_composefs: composefs == Some(true),
                        skip_if_ostree: ostree == Some(true),
                        skip_if_uki: uki == Some(true),
                        fresh_install_disk: fresh == Some(true),
                    },
                )
            }
        }),
        forall|other: Seq<char>|
            !"/plan-"@.is_prefix_of(other) ==> #[trigger] metadata_of(entries, other) is None,
{
    reveal_strlit("extra-");
    reveal_strlit("try_bind_storage");
    reveal_strlit("fixme_skip_if_composefs");
    reveal_strlit("fixme_skip_if_uki");
    reveal_strlit("skip_if_ostree");
    reveal_strlit("fresh_install_disk");
    reveal_strlit("extra-try_bind_storage");
    reveal_strlit("extra-fixme_skip_if_composefs");
    reveal_strlit("extra-fixme_skip_if_uki");
    reveal_strlit("extra-skip_if_ostree");
    reveal_strlit("extra-fresh_install_disk");
    assert("extra-"@ + "try_bind_storage"@ =~= "extra-try_bind_storage"@);
    assert("extra-"@ + "fixme_skip_if_composefs"@ =~= "extra-fixme_skip_if_composefs"@);
    assert("extra-"@ + "skip_if_ostree"@ =~= "extra-skip_if_ostree"@);
    assert("extra-"@ + "fixme_skip_if_uki"@ =~= "extra-fixme_skip_if_uki"@);
    assert("extra-"@ + "fresh_install_disk"@ =~= "extra-fresh_install_disk"@);
    let key = "/plan-"@ + name;
    assert("/plan-"@ =~= key.subrange(0, "/plan-"@.len() as int));
    lemma_metadata_of_plain(entries, key);
    assert(Yaml::Mapping(data).as_mapping() == Some(data));
    assert forall|other: Seq<char>| !"/plan-"@.is_prefix_of(other) implies #[trigger] metadata_of(
        entries,
        other,
    ) is None by {
        lemma_no_plan(entries, other);
    }
}

/// What is no plan is not told of.
proof fn lemma_no_plan(entries: Seq<(Yaml, Yaml)>, name: Seq<char>)
    requires
        !"/plan-"@.is_prefix_of(name),
    ensures
        metadata_of(entries, name) is None,
    decreases entries.len(),
{
    if entries.len() > 0 {
        lemma_no_plan(entries.drop_last(), name);
    }
}

/// The table is looked up by the end of a plan's name: tmt puts the directories of the plan before
/// the name in the table. A plan that no name ends has no flag.
pub proof fn law_plans_are_looked_up(table: Seq<PlanEntry>, k: int, dirs: Seq<char>, plan: Seq<char>)
    requires
        0 <= k < table.len(),
    ensures
        unambiguous(table, dirs + table[k].name@) ==> plan_of(table, dirs + table[k].name@)
            == table[k].metadata,
        (forall|i: int, d: Seq<char>|
            0 <= i < table.len() ==> plan != #[trigger] (d + table[i].name@)) ==> plan_of(
            table,
            plan,
        ) == (PlanMetadata {
            try_bind_storage: false,
            skip_if_composefs: false,
            skip_if_ostree: false,
            skip_if_uki: false,
            fresh_install_disk: false,
        }),
{
    let full = dirs + table[k].name@;
    lemma_matching(table, full, 0);
    assert(table[k].name@.is_suffix_of(full)) by {
        assert(table[k].name@ =~= full.subrange(full.len() - table[k].name@.len(), full.len() as int));
    }
    if unambiguous(table, full) {
        let m = matching(table, full, 0)->0;
        if m < k {
            assert(table[m].name@.is_suffix_of(full));
        }
        if k < m {
            assert(table[m].name@.is_suffix_of(full));
        }
    }
    lemma_matching(table, plan, 0);
    if matching(table, plan, 0) is Some {
        let i = matching(table, plan, 0)->0;
        let name = table[i].name@;
        let d = plan.take(plan.len() - name.len());
        assert(name =~= plan.subrange(plan.len() - name.len(), plan.len() as int));
        assert(plan =~= d + name);
    }
}

/// A plan runs exactly if one of the filters stands in its name, where there are any, and none of
/// its flags is against it: that for composefs on composefs, that for OSTree elsewhere, that for
/// unified kernel images where one boots.
pub proof fn law_selection(selection: Selection, table: Seq<PlanEntry>, plan: Seq<char>)
    ensures
        selection.composefs_backend && plan_of(table, plan).skip_if_composefs ==> !selection.wants(
            table,
            plan,
        ),
        !selection.composefs_backend && plan_of(table, plan).skip_if_ostree ==> !selection.wants(
            table,
            plan,
        ),
        selection.uki && plan_of(table, plan).skip_if_uki ==> !selection.wants(table, plan),
        selection.filters@.len() > 0 && (forall|i: int, a: Seq<char>, b: Seq<char>|
            0 <= i < selection.filters@.len() ==> plan != #[trigger] (a + selection.filters@[i]@
                + b)) ==> !selection.wants(table, plan),
        ({
            let m = plan_of(table, plan);
            let blocked = (selection.composefs_backend && m.skip_if_composefs) || (
            !selection.composefs_backend && m.skip_if_ostree) || (selection.uki && m.skip_if_uki);
            &&& selection.filters@.len() == 0 && !blocked ==> selection.wants(table, plan)
            &&& forall|i: int, a: Seq<char>, b: Seq<char>|
                0 <= i < selection.filters@.len() && plan == #[trigger] (a
                    + selection.filters@[i]@ + b) && !blocked ==> selection.wants(table, plan)
        }),
{
    let filters = selection.filters@;
    assert forall|i: int, a: Seq<char>, b: Seq<char>|
        0 <= i < filters.len() && plan == #[trigger] (a + filters[i]@ + b) implies contains(
        plan,
        filters[i]@,
    ) by {
        let f = filters[i]@;
        assert(plan.subrange(a.len() as int, a.len() as int + f.len()) =~= f);
        assert(occurs_at(plan, f, a.len() as int));
    }
    if exists|i: int| 0 <= i < filters.len() && contains(plan, #[trigger] filters[i]@) {
        let i = choose|i: int| 0 <= i < filters.len() && contains(plan, #[trigger] filters[i]@);
        let f = filters[i]@;
        let at = choose|at: int| occurs_at(plan, f, at);
        let a = plan.take(at);
        let b = plan.skip(at + f.len());
        assert(plan =~= a + filters[i]@ + b);
    }
}

/// The plans that are listed are the lines that begin with a slash, without the white space around
/// them, all of them and in their order.
pub proof fn law_listed_plans(
    before: Seq<char>,
    plan: Seq<char>,
    after: Seq<char>,
    other: Seq<char>,
    rest: Seq<char>,
)
    requires
        is_blank(before),
        is_blank(after),
        lacks(before, '\n'),
        lacks(after, '\n'),
        lacks(after, '\r'),
        plan.len() > 0,
        plan[0] == '/',
        is_printable_ascii(plan.last()),
        lacks(plan, '\n'),
        other.len() > 0,
        is_printable_ascii(other[0]),
        is_printable_ascii(other.last()),
        other[0] != '/',
        lacks(other, '\n'),
    ensures
        listed_plans((before + plan + after).push('\n') + rest) == seq![plan] + listed_plans(rest),
        listed_plans(other.push('\n') + rest) == listed_plans(rest),
        listed_plans(seq![]) == Seq::<Seq<char>>::empty(),
{
    reveal(Seq::filter);
    reveal_strlit("/");
    let pred = |line: Seq<char>| "/"@.is_prefix_of(line);
    let line = before + plan + after;
    law_trim(before, plan, after);
    let none: Seq<char> = seq![];
    law_trim(none, other, none);
    assert(none + other + none =~= other);
    assert(lacks(line, '\n')) by {
        assert forall|i: int| 0 <= i < line.len() implies #[trigger] line[i] != '\n' by {
            if i < before.len() {
                assert(line[i] == before[i]);
            } else if i < before.len() + plan.len() {
                assert(line[i] == plan[i - before.len()]);
            } else {
                assert(line[i] == after[i - before.len() - plan.len()]);
            }
        }
    }
    assert(line.last() != '\r') by {
        if after.len() > 0 {
            assert(line.last() == after[after.len() - 1]);
        } else {
            assert(line.last() == plan.last());
        }
    }
    law_lines(line, rest);
    law_lines(other, rest);
    let tail = trimmed_lines(rest);
    assert(trimmed_lines(line.push('\n') + rest) =~= seq![plan] + tail);
    assert(trimmed_lines(other.push('\n') + rest) =~= seq![other] + tail);
    Seq::filter_distributes_over_add(seq![plan], tail, pred);
    Seq::filter_distributes_over_add(seq![other], tail, pred);
    assert("/"@ =~= plan.subrange(0, 1));
    assert(!"/"@.is_prefix_of(other)) by {
        if "/"@.is_prefix_of(other) {
            assert(other.subrange(0, 1)[0] == '/');
        }
    }
    assert(seq![plan].drop_last() =~= seq![]);
    assert(seq![other].drop_last() =~= seq![]);
    let nothing: Seq<Seq<char>> = seq![];
    assert(nothing.filter(pred) =~= nothing);
    assert(seq![plan].filter(pred) =~= seq![plan]);
    assert(seq![other].filter(pred) =~= nothing);
    assert(nothing + tail.filter(pred) =~= tail.filter(pred));
    assert(trimmed_lines(none) =~= nothing);
}

/// A run goes on without a connection exactly if none is given and no plan installs a second disk; a
/// plan that does, wherever it stands, needs one.
pub proof fn law_connection_is_needed(
    given: bool,
    plans: &Vec<String>,
    table: &Vec<PlanEntry>,
    i: int,
    r: ConnectionStep,
)
    requires
        call_ensures(connection_step, (given, plans, table), r),
        0 <= i < plans@.len(),
    ensures
        given <==> r == ConnectionStep::Resolve,
        !given && plan_of(table@, plans@[i]@).fresh_install_disk ==> r == ConnectionStep::Missing,
        r == ConnectionStep::Missing ==> exists|k: int|
            0 <= k < plans@.len() && plan_of(
                table@,
                (#[trigger] plans@[k])@,
            ).fresh_install_disk,
{
    let all = texts(plans@);
    assert(all[i] == plans@[i]@);
    if some_fresh_install(all, table@) {
        let k = choose|k: int|
            0 <= k < all.len() && plan_of(table@, #[trigger] all[k]).fresh_install_disk;
        assert(all[k] == plans@[k]@);
    }
}

/// What a file says of a plan is what the runner knows of it, by the name that tmt gives it: each flag
/// from its own key. A file that is no mapping is refused.
pub proof fn law_flags_reach_the_runner(
    content: &str,
    r: Result<Vec<PlanEntry>, PlansError>,
    entries: Seq<(Yaml, Yaml)>,
    dirs: Seq<char>,
    name: Seq<char>,
    data: Seq<(Yaml, Yaml)>,
)
    requires
        call_ensures(parse_plan_metadata, (content,), r),
        yaml_parsed(content@) == Some(Yaml::Mapping(entries)),
        plain_keys(entries),
        entry(entries, "/plan-"@ + name) == Some(Yaml::Mapping(data)),
    ensures
        r matches Ok(table) && (unambiguous(table@, dirs + ("/plan-"@ + name)) && bool_under(
            data,
            "extra-try_bind_storage"@,
        ) is Some ==> {
            let m = plan_of(table@, dirs + ("/plan-"@ + name));
            &&& m.try_bind_storage == (bool_under(data, "extra-try_bind_storage"@) == Some(true))
            &&& m.skip_if_composefs == (bool_under(data, "extra-fixme_skip_if_composefs"@) == Some(
                true,
            ))
            &&& m.skip_if_ostree == (bool_under(data, "extra-skip_if_ostree"@) == Some(true))
            &&& m.skip_if_uki == (bool_under(data, "extra-fixme_skip_if_uki"@) == Some(true))
            &&& m.fresh_install_disk == (bool_under(data, "extra-fresh_install_disk"@) == Some(
                true,
            ))
        }),
{
    let key = "/plan-"@ + name;
    law_flags_are_read(entries, name, data);
    assert(Yaml::Mapping(entries).as_mapping() == Some(entries));
    let table = r->Ok_0@;
    assert(lookup(table, key) == metadata_of(entries, key));
    if metadata_of(entries, key) is Some {
        lemma_place(table, key, 0);
        let k = place(table, key, 0)->0;
        law_plans_are_looked_up(table, k, dirs, key);
    }
}

} // verus!
