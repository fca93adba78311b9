//! Names of virtual machines, and what the test image tells about itself.

use vstd::prelude::*;

use rand::RngExt;

use crate::bcvk::SealState;
use crate::text::{
    begins_with, chars_of, concat2, concat3, is_blank, is_printable_ascii, law_trim,
    lemma_trim_class, lines, lines_of, same, string_of, texts, trim, trim_class, trim_end,
    trim_start, trimmed, trimmed_class, Class,
};

verus! {

/// The characters of a random suffix.
pub const CHARSET: &'static str = "abcdefghijklmnopqrstuvwxyz0123456789";

/// How many characters a random suffix has.
pub const SUFFIX_LEN: usize = 8;

/// The distribution that lacks `systemd.extra-unit.*`.
pub const DISTRO_CENTOS_9: &'static str = "centos-9";

/// Calls `random_range` on `rand`'s generator of the thread, with the range from 0
/// up to `end`. The result is below `end`; which one it is, is left to chance. An
/// empty range makes it panic.
#[verifier::external_body]
fn random_index(end: usize) -> (r: usize)
    requires
        end > 0,
    ensures
        r < end,
{
    rand::rng().random_range(0..end)
}

/// The characters of the set at the given positions.
pub open spec fn picked(indices: Seq<usize>) -> Seq<char> {
    Seq::new(indices.len(), |i: int| CHARSET@[indices[i] as int])
}

/// The suffix that a list of positions in the character set stands for.
pub fn suffix_of(indices: &Vec<usize>) -> (r: String)
    requires
        forall|i: int| 0 <= i < indices@.len() ==> #[trigger] indices@[i] < CHARSET@.len(),
    ensures
        r@ == picked(indices@),
{
    let set = chars_of(CHARSET);
    let mut out: Vec<char> = Vec::new();
    let mut i: usize = 0;
    while i < indices.len()
        invariant
            i <= indices@.len(),
            set@ == CHARSET@,
            forall|i: int| 0 <= i < indices@.len() ==> #[trigger] indices@[i] < CHARSET@.len(),
            out@ == picked(indices@).take(i as int),
        decreases indices@.len() - i,
    {
        out.push(set[indices[i]]);
        assert(out@ =~= picked(indices@).take(i + 1));
        i = i + 1;
    }
    assert(out@ =~= picked(indices@));
    let n = out.len();
    assert(out@.subrange(0, n as int) =~= out@);
    string_of(&out, 0, n)
}

/// Whether `s` can be a random suffix: eight lower-case letters and digits.
pub open spec fn is_suffix(s: Seq<char>) -> bool {
    &&& s.len() == SUFFIX_LEN
    &&& forall|i: int| 0 <= i < s.len() ==> CHARSET@.contains(#[trigger] s[i])
}

/// A random suffix for the names of virtual machines.
pub fn generate_random_suffix() -> (r: String)
    ensures
        is_suffix(r@),
{
    let set = chars_of(CHARSET);
    let end = set.len();
    proof {
        reveal_strlit("abcdefghijklmnopqrstuvwxyz0123456789");
    }
    let mut indices: Vec<usize> = Vec::new();
    while indices.len() < SUFFIX_LEN
        invariant
            indices@.len() <= SUFFIX_LEN,
            0 < end,
            end == CHARSET@.len(),
            forall|i: int| 0 <= i < indices@.len() ==> #[trigger] indices@[i] < CHARSET@.len(),
        decreases SUFFIX_LEN - indices@.len(),
    {
        indices.push(random_index(end));
    }
    let r = suffix_of(&indices);
    assert forall|i: int| 0 <= i < r@.len() implies CHARSET@.contains(#[trigger] r@[i]) by {
        assert(r@[i] == CHARSET@[indices@[i] as int]);
    }
    r
}

/// What `char::is_alphanumeric` says of a character outside of ASCII.
pub uninterp spec fn unicode_alphanumeric(c: char) -> bool;

/// Whether a character is a letter or a digit of ASCII.
pub open spec fn ascii_alphanumeric(c: char) -> bool {
    ('a' <= c && c <= 'z') || ('A' <= c && c <= 'Z') || ('0' <= c && c <= '9')
}

/// Whether a character is alphabetic or numeric.
pub open spec fn alphanumeric(c: char) -> bool {
    if c <= '\x7f' {
        ascii_alphanumeric(c)
    } else {
        unicode_alphanumeric(c)
    }
}

/// Calls `char::is_alphanumeric`: whether the character is alphabetic or numeric by
/// its Unicode properties. Of ASCII characters these are the letters and the
/// digits; the table for the others is not written out here.
#[verifier::external_body]
fn char_is_alphanumeric(c: char) -> (r: bool)
    ensures
        c <= '\x7f' ==> r == ascii_alphanumeric(c),
        c > '\x7f' ==> r == unicode_alphanumeric(c),
{
    c.is_alphanumeric()
}

/// A character of a plan name as it stands in the name of a virtual machine.
pub open spec fn name_char(c: char) -> char {
    if alphanumeric(c) || c == '-' || c == '_' {
        c
    } else {
        '-'
    }
}

/// The plan name with a dash for every character that is none of letters, digits,
/// `-` and `_`.
pub open spec fn dashed(plan: Seq<char>) -> Seq<char> {
    Seq::new(
        plan.len(),
        |i: int|
            if plan[i] == '/' {
                '-'
            } else {
                name_char(plan[i])
            },
    )
}

/// A plan name for use in the name of a virtual machine: without leading and
/// trailing dashes, and never empty.
pub open spec fn sanitized(plan: Seq<char>) -> Seq<char> {
    let s = trim_class(dashed(plan), Class::Dash);
    if s.len() == 0 {
        "plan"@
    } else {
        s
    }
}

/// A plan name for use in the name of a virtual machine.
pub fn sanitize_plan_name(plan: &str) -> (r: String)
    ensures
        r@ == sanitized(plan@),
{
    let chars = chars_of(plan);
    let mut out: Vec<char> = Vec::new();
    let mut i: usize = 0;
    while i < chars.len()
        invariant
            i <= chars@.len(),
            chars@ == plan@,
            out@ == dashed(plan@).take(i as int),
        decreases chars@.len() - i,
    {
        let c = chars[i];
        if c != '/' && (char_is_alphanumeric(c) || c == '-' || c == '_') {
            out.push(c);
        } else {
            out.push('-');
        }
        assert(out@ =~= dashed(plan@).take(i + 1));
        i = i + 1;
    }
    assert(out@ =~= dashed(plan@));
    let n = out.len();
    assert(out@.subrange(0, n as int) =~= out@);
    let s = string_of(&out, 0, n);
    let t = trimmed_class(s.as_str(), Class::Dash);
    if t.as_str().is_empty() {
        "plan".to_string()
    } else {
        t
    }
}

/// How a system boots.
#[derive(Debug, Clone, Copy, PartialEq, Eq, Structural)]
pub enum BootType {
    /// Boot loader specification entries.
    Bls,
    /// A unified kernel image.
    Uki,
}

impl BootType {
    /// The name on the command line.
    pub open spec fn text(self) -> Seq<char> {
        match self {
            BootType::Bls => "bls"@,
            BootType::Uki => "uki"@,
        }
    }

    /// The name on the command line.
    pub fn as_str(self) -> (r: &'static str)
        ensures
            r@ == self.text(),
    {
        match self {
            BootType::Bls => "bls",
            BootType::Uki => "uki",
        }
    }
}

/// How the context speaks of the seal state.
pub open spec fn seal_text(seal_state: Option<SealState>) -> Seq<char> {
    match seal_state {
        Some(s) => s.text(),
        None => "unspecified"@,
    }
}

/// The context arguments that tell tmt how the system boots.
pub fn boot_context(boot_type: &BootType, seal_state: Option<&SealState>) -> (r: [String; 2])
    ensures
        r@[0]@ == "--context=boot_type="@ + boot_type.text(),
        r@[1]@ == "--context=seal_state="@ + seal_text(
            match seal_state {
                Some(s) => Some(*s),
                None => None,
            },
        ),
{
    let seal = match seal_state {
        Some(s) => s.as_str(),
        None => "unspecified",
    };
    [concat2("--context=boot_type=", boot_type.as_str()), concat2("--context=seal_state=", seal)]
}

/// The distribution of an image, from what it prints of its `os-release`; `None`
/// where it prints nothing.
pub fn distro_of(output: &str) -> (r: Option<String>)
    ensures
        match r {
            Some(d) => d@ == trim(output@) && d@.len() > 0,
            None => trim(output@).len() == 0,
        },
{
    let distro = trimmed(output);
    if distro.as_str().is_empty() {
        None
    } else {
        Some(distro)
    }
}

/// The variant of an image as the context needs it: never empty.
pub open spec fn variant(output: Seq<char>) -> Seq<char> {
    if trim(output).len() == 0 {
        "unknown"@
    } else {
        trim(output)
    }
}

/// The variant of an image, from what it prints of its `os-release`.
pub fn variant_of(output: &str) -> (r: String)
    ensures
        r@ == variant(output@),
{
    match distro_of(output) {
        Some(v) => v,
        None => "unknown".to_string(),
    }
}

/// Whether a listing of `/boot` is that of a sealed image: such images have EFI boot components
/// there, others do not.
pub fn listing_is_sealed(output: &str) -> (r: bool)
    ensures
        r == lines(output@).contains("EFI"@),
{
    let ls = lines_of(output);
    let ghost all = lines(output@);
    let mut i: usize = 0;
    while i < ls.len()
        invariant
            i <= ls@.len(),
            all == texts(ls@),
            all == lines(output@),
            forall|j: int| 0 <= j < i ==> #[trigger] all[j] != "EFI"@,
        decreases ls@.len() - i,
    {
        assert(all[i as int] == ls@[i as int]@);
        if same(ls[i].as_str(), "EFI") {
            return true;
        }
        i = i + 1;
    }
    false
}

/// Whether a distribution supports `--bind-storage-ro`.
pub fn distro_supports_bind_storage_ro(distro: &str) -> (r: bool)
    ensures
        r == !DISTRO_CENTOS_9@.is_prefix_of(distro@),
{
    !begins_with(distro, DISTRO_CENTOS_9)
}

/// The name of the machine on which a plan runs.
pub open spec fn vm_name(suffix: Seq<char>, plan: Seq<char>) -> Seq<char> {
    "bootc-tmt-"@ + suffix + "-"@ + sanitized(plan)
}

/// The name of the machine on which a plan runs.
pub fn vm_name_for(suffix: &str, plan: &str) -> (r: String)
    ensures
        r@ == vm_name(suffix@, plan@),
{
    let head = concat3("bootc-tmt-", suffix, "-");
    let name = sanitize_plan_name(plan);
    concat2(head.as_str(), name.as_str())
}

/// A sanitized plan name is never empty, holds no slash, and has no dash at either
/// end.
pub proof fn law_sanitized_is_a_name(plan: Seq<char>)
    ensures
        sanitized(plan).len() > 0,
        forall|i: int| 0 <= i < sanitized(plan).len() ==> #[trigger] sanitized(plan)[i] != '/',
        sanitized(plan)[0] != '-',
        sanitized(plan).last() != '-',
{
    reveal_strlit("plan");
    let s = dashed(plan);
    let t = trim_class(s, Class::Dash);
    lemma_trim_class(s, Class::Dash);
    let k = choose|k: int|
        0 <= k && k + t.len() <= s.len() && t == #[trigger] s.subrange(k, k + t.len());
    assert forall|i: int| 0 <= i < t.len() implies #[trigger] t[i] != '/' by {
        assert(t[i] == s[k + i]);
    }
}

/// Plans whose names stay different run on different machines.
pub proof fn law_machines_differ(suffix: Seq<char>, a: Seq<char>, b: Seq<char>)
    requires
        sanitized(a) != sanitized(b),
    ensures
        vm_name(suffix, a) != vm_name(suffix, b),
{
    let head = "bootc-tmt-"@ + suffix + "-"@;
    let n = head.len() as int;
    assert(vm_name(suffix, a).skip(n) =~= sanitized(a));
    assert(vm_name(suffix, b).skip(n) =~= sanitized(b));
}

/// A part of a dashed name is dashed already.
proof fn lemma_part_is_dashed(plan: Seq<char>, k: int, n: int)
    requires
        0 <= k <= n <= plan.len(),
    ensures
        dashed(dashed(plan).subrange(k, n)) == dashed(plan).subrange(k, n),
{
    let t = dashed(plan).subrange(k, n);
    assert forall|i: int| 0 <= i < t.len() implies #[trigger] dashed(t)[i] == t[i] by {
        assert(t[i] == dashed(plan)[k + i]);
    }
    assert(dashed(t) =~= t);
}

/// Sanitizing a sanitized name changes nothing.
pub proof fn law_sanitizing_is_idempotent(plan: Seq<char>)
    ensures
        sanitized(sanitized(plan)) == sanitized(plan),
{
    let s = dashed(plan);
    let t = trim_class(s, Class::Dash);
    lemma_trim_class(s, Class::Dash);
    if t.len() > 0 {
        let k = choose|k: int|
            0 <= k && k + t.len() <= s.len() && t == #[trigger] s.subrange(k, k + t.len());
        lemma_part_is_dashed(plan, k, k + t.len());
    } else {
        reveal_strlit("plan");
        assert(dashed("plan"@) =~= "plan"@);
    }
}

// ---------------------------------------------------------------------------
// Laws of the names
// ---------------------------------------------------------------------------

/// Whether a text is not empty and made of ASCII letters, digits and underscores.
pub open spec fn is_clean(s: Seq<char>) -> bool {
    s.len() > 0 && forall|i: int|
        0 <= i < s.len() ==> ('a' <= #[trigger] s[i] && s[i] <= 'z') || ('A' <= s[i] && s[i] <= 'Z')
            || ('0' <= s[i] && s[i] <= '9') || s[i] == '_'
}

/// A dashed text loses the dashes at its ends, and no others.
proof fn lemma_undashed(s: Seq<char>)
    requires
        s.len() > 0,
        s[0] != '-',
        s.last() != '-',
    ensures
        trim_class(s, Class::Dash) == s,
        trim_class(seq!['-'] + s, Class::Dash) == s,
        trim_class(s.push('-'), Class::Dash) == s,
{
    let d = Class::Dash;
    let before = seq!['-'] + s;
    assert(before.drop_first() =~= s);
    assert(trim_start(s, d) == s);
    assert(trim_start(before, d) == trim_start(s, d));
    let behind = s.push('-');
    assert(behind[0] == s[0]);
    assert(trim_start(behind, d) == behind);
    assert(behind.drop_last() =~= s);
    assert(trim_end(s, d) == s);
}

/// Letters, digits and underscores of a plan's name are kept; any other character of ASCII between
/// them becomes a dash, and none stays at the ends. A name of which nothing is left is `plan`.
pub proof fn law_sanitized_keeps_names(a: Seq<char>, c: char, b: Seq<char>)
    requires
        is_clean(a),
        is_clean(b),
        c <= '\x7f',
        !is_clean(seq![c]),
    ensures
        sanitized(a) == a,
        sanitized(a + seq![c] + b) == a + seq!['-'] + b,
        sanitized(seq![c] + a) == a,
        sanitized(a.push(c)) == a,
        sanitized(seq![c]) == "plan"@,
        sanitized(seq![]) == "plan"@,
{
    reveal_strlit("plan");
    assert(seq![c][0] == c);
    assert(!ascii_alphanumeric(c) && c != '_') by {
        if ascii_alphanumeric(c) || c == '_' {
            assert(is_clean(seq![c]));
        }
    }
    lemma_clean_stays(a);
    lemma_clean_stays(b);
    let whole = a + seq!['-'] + b;
    assert(dashed(a + seq![c] + b) =~= whole) by {
        assert forall|i: int| 0 <= i < whole.len() implies #[trigger] dashed(a + seq![c] + b)[i]
            == whole[i] by {
            if i < a.len() {
                assert(dashed(a)[i] == a[i]);
            } else if i > a.len() {
                assert(dashed(b)[i - a.len() - 1] == b[i - a.len() - 1]);
            }
        }
    }
    assert(dashed(seq![c] + a) =~= seq!['-'] + a) by {
        assert forall|i: int| 0 <= i < a.len() + 1 implies #[trigger] dashed(seq![c] + a)[i] == (
        seq!['-'] + a)[i] by {
            if i > 0 {
                assert(dashed(a)[i - 1] == a[i - 1]);
            }
        }
    }
    assert(dashed(a.push(c)) =~= a.push('-')) by {
        assert forall|i: int| 0 <= i < a.len() + 1 implies #[trigger] dashed(a.push(c))[i] == a.push(
            '-',
        )[i] by {
            if i < a.len() {
                assert(dashed(a)[i] == a[i]);
            }
        }
    }
    assert(a[0] != '-' && a[a.len() - 1] != '-' && b[b.len() - 1] != '-');
    lemma_undashed(a);
    assert(whole[0] == a[0]);
    assert(whole.last() == b[b.len() - 1]);
    lemma_undashed(whole);
    let one = dashed(seq![c]);
    assert(one =~= seq!['-']);
    assert(one.drop_first() =~= seq![]);
    let none: Seq<char> = seq![];
    assert(trim_start(none, Class::Dash) =~= none);
    assert(trim_start(one, Class::Dash) == trim_start(none, Class::Dash));
    assert(dashed(none) =~= none);
}

/// A clean text is not dashed.
proof fn lemma_clean_stays(a: Seq<char>)
    requires
        is_clean(a),
    ensures
        dashed(a) == a,
{
    assert forall|i: int| 0 <= i < a.len() implies #[trigger] dashed(a)[i] == a[i] by {
        let c = a[i];
        assert(('a' <= c && c <= 'z') || ('A' <= c && c <= 'Z') || ('0' <= c && c <= '9') || c
            == '_');
    }
    assert(dashed(a) =~= a);
}

/// A random suffix is eight lower-case letters and digits, and every one of these can stand in it.
pub proof fn law_suffix_characters(s: Seq<char>)
    ensures
        is_suffix(s) <==> s.len() == 8 && forall|i: int|
            0 <= i < s.len() ==> ('a' <= #[trigger] s[i] && s[i] <= 'z') || ('0' <= s[i] && s[i]
                <= '9'),
{
    reveal_strlit("abcdefghijklmnopqrstuvwxyz0123456789");
    assert forall|c: char| #[trigger] CHARSET@.contains(c) == (('a' <= c && c <= 'z') || ('0' <= c
        && c <= '9')) by {
        if 'a' <= c && c <= 'z' {
            let k = c as int - 'a' as int;
            assert(CHARSET@[k] == c);
        }
        if '0' <= c && c <= '9' {
            let k = c as int - '0' as int + 26;
            assert(CHARSET@[k] == c);
        }
    }
}

/// The name of a machine begins with `bootc-tmt-` and the suffix of the run, and ends in the name of
/// its plan.
pub proof fn law_machine_names(suffix: Seq<char>, plan: Seq<char>)
    requires
        is_clean(plan),
    ensures
        vm_name(suffix, plan) == "bootc-tmt-"@ + suffix + "-"@ + plan,
        vm_name(suffix, seq!['/'] + plan) == "bootc-tmt-"@ + suffix + "-"@ + plan,
{
    assert(seq!['/'][0] == '/');
    assert(!is_clean(seq!['/']));
    law_sanitized_keeps_names(plan, '/', plan);
}

/// What the context says of how a system boots.
pub proof fn law_boot_context_words()
    ensures
        BootType::Bls.text() == "bls"@,
        BootType::Uki.text() == "uki"@,
        seal_text(None) == "unspecified"@,
        forall|s: SealState| #[trigger] seal_text(Some(s)) == s.text(),
{
}

/// The variant of an image is what it prints, without the white space around it; where it prints
/// nothing, it is unknown.
pub proof fn law_variant(before: Seq<char>, v: Seq<char>, after: Seq<char>)
    requires
        is_blank(before),
        is_blank(after),
        v.len() > 0 ==> is_printable_ascii(v[0]) && is_printable_ascii(v.last()),
    ensures
        v.len() > 0 ==> variant(before + v + after) == v,
        v.len() == 0 ==> variant(before + v + after) == "unknown"@,
{
    law_trim(before, v, after);
}

/// An image is taken for sealed exactly if `EFI` is a whole line of its listing, wherever it stands.
pub proof fn law_sealed_listing(output: &str, a: Seq<Seq<char>>, b: Seq<Seq<char>>, r: bool)
    requires
        call_ensures(listing_is_sealed, (output,), r),
    ensures
        lines(output@) == a.push("EFI"@) + b ==> r,
        r ==> exists|i: int| 0 <= i < lines(output@).len() && lines(output@)[i] == "EFI"@,
{
    if lines(output@) == a.push("EFI"@) + b {
        assert(lines(output@)[a.len() as int] == "EFI"@);
    }
}

/// Storage is bound on every distribution but those that begin with `centos-9`.
pub proof fn law_bind_storage_support(distro: &str, rest: Seq<char>, r: bool)
    requires
        call_ensures(distro_supports_bind_storage_ro, (distro,), r),
    ensures
        distro@ == "centos-9"@ + rest ==> !r,
        !r ==> exists|tail: Seq<char>| distro@ == #[trigger] ("centos-9"@ + tail),
{
    if distro@ == "centos-9"@ + rest {
        assert("centos-9"@ =~= distro@.subrange(0, "centos-9"@.len() as int));
    }
    if !r {
        let tail = distro@.skip("centos-9"@.len() as int);
        assert("centos-9"@ =~= distro@.subrange(0, "centos-9"@.len() as int));
        assert(distro@ =~= "centos-9"@ + tail);
    }
}

/// Each position stands for its own character: the letters first, then the digits.
pub proof fn law_picked_characters(indices: Seq<usize>, i: int)
    requires
        0 <= i < indices.len(),
        indices[i] < 36,
    ensures
        picked(indices).len() == indices.len(),
        indices[i] < 26 ==> picked(indices)[i] as int == 'a' as int + indices[i],
        indices[i] >= 26 ==> picked(indices)[i] as int == '0' as int + indices[i] - 26,
        CHARSET@.len() == 36,
{
    reveal_strlit("abcdefghijklmnopqrstuvwxyz0123456789");
}

} // verus!
