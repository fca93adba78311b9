//! Locking the executable in memory when it is served over virtiofs.

use vstd::prelude::*;

use crate::text::{
    after_prefix, begins_with, byte_len, chars_of, concat2, concat3, cut_once, decimal, decimal_of,
    digits_value, is_word, join, lacks, law_decimal_is_digits, law_decimal_reads_back,
    law_split_once, law_words, law_words_of_joined, lines, lines_of, opt_str, opt_text,
    parse_unsigned, quote, quoted, same, split_once, string_of, strip_prefix, texts, unsigned_of,
    words, words_of, Class,
};

verus! {

pub const MLOCK_ENV: &'static str = "BOOTC_EXPERIMENTAL_MLOCK_VIRTIOFS";

pub const STATUS_PATH: &'static str = "/proc/self/status";

pub const MOUNTINFO_PATH: &'static str = "/proc/self/mountinfo";

// ---------------------------------------------------------------------------
// The mode
// ---------------------------------------------------------------------------

/// When the executable is locked.
#[derive(Debug, Clone, Copy, PartialEq, Eq, Structural)]
pub enum MlockMode {
    /// When it is served over virtiofs.
    Auto,
    /// In any case.
    Force,
}

/// A value of the variable that names no mode.
#[derive(Debug)]
pub struct InvalidMode(pub String);

impl InvalidMode {
    /// The text of the error.
    pub fn message(&self) -> (r: String)
        ensures
            r@ == "Invalid "@ + MLOCK_ENV@ + "="@ + quoted(self.0@)
                + "; expected one of: auto, force"@,
    {
        let head = concat3("Invalid ", MLOCK_ENV, "=");
        let q = quote(self.0.as_str());
        concat3(head.as_str(), q.as_str(), "; expected one of: auto, force")
    }
}

impl MlockMode {
    /// The mode with a name, if there is one.
    pub open spec fn named(s: Seq<char>) -> Option<MlockMode> {
        if s == "auto"@ {
            Some(MlockMode::Auto)
        } else if s == "force"@ {
            Some(MlockMode::Force)
        } else {
            None
        }
    }

    /// The mode that the value of the variable names; none where it is not set.
    pub fn from_env(value: Option<&str>) -> (r: Result<Option<MlockMode>, InvalidMode>)
        ensures
            match opt_str(value) {
                None => r == Ok::<_, InvalidMode>(None::<MlockMode>),
                Some(v) => match MlockMode::named(v) {
                    Some(mode) => r == Ok::<_, InvalidMode>(Some(mode)),
                    None => r matches Err(InvalidMode(s)) && s@ == v,
                },
            },
    {
        match value {
            None => Ok(None),
            Some(v) => if same(v, "auto") {
                Ok(Some(MlockMode::Auto))
            } else if same(v, "force") {
                Ok(Some(MlockMode::Force))
            } else {
                Err(InvalidMode(v.to_string()))
            },
        }
    }
}

// ---------------------------------------------------------------------------
// What serves the executable
// ---------------------------------------------------------------------------

/// What serves the executable.
#[derive(Debug, PartialEq, Eq)]
pub enum ExecutableBacking {
    Virtiofs,
    /// Another file system.
    Other(String),
    /// An overlay. What it lies on is not looked up: a mistake there would turn a control
    /// into a treatment unnoticed.
    OverlayUnknown,
    Unknown,
}

/// Whether the executable is locked.
pub fn should_activate(mode: MlockMode, backing: &ExecutableBacking) -> (r: bool)
    ensures
        r == (mode == MlockMode::Force || *backing is Virtiofs),
{
    match mode {
        MlockMode::Force => true,
        MlockMode::Auto => match backing {
            ExecutableBacking::Virtiofs => true,
            _ => false,
        },
    }
}

/// A path of `mountinfo` with its escapes resolved: a backslash and up to three octal digits
/// stand for the character with that number. `None` where what follows a backslash is no
/// such number.
pub open spec fn unescaped(s: Seq<char>) -> Option<Seq<char>>
    decreases s.len(),
{
    if s.len() == 0 {
        Some(seq![])
    } else if s[0] != '\\' {
        match unescaped(s.drop_first()) {
            Some(t) => Some(seq![s[0]] + t),
            None => None,
        }
    } else {
        let rest = s.drop_first();
        let n: int = if rest.len() < 3 {
            rest.len() as int
        } else {
            3
        };
        match (parse_unsigned(rest.take(n), 8, 255), unescaped(rest.skip(n))) {
            (Some(v), Some(t)) => Some(seq![v as char] + t),
            _ => None,
        }
    }
}

/// An escape in the named path of `mountinfo` is malformed.
#[derive(Debug)]
pub struct BadEscape(pub String);

/// A path of `mountinfo` with its escapes resolved.
pub fn unescape_mountinfo_path(value: &str) -> (r: Result<String, BadEscape>)
    ensures
        match unescaped(value@) {
            Some(t) => r matches Ok(s) && s@ == t,
            None => r matches Err(BadEscape(s)) && s@ == value@,
        },
{
    let chars = chars_of(value);
    let n = chars.len();
    let mut result = String::new();
    let mut i: usize = 0;
    assert(value@.skip(0) =~= value@);
    assert(result@ =~= seq![]);
    proof {
        if unescaped(value@) is Some {
            assert(result@ + unescaped(value@)->0 =~= unescaped(value@)->0);
        }
    }
    while i < n
        invariant
            n == chars@.len(),
            chars@ == value@,
            i <= n,
            match unescaped(value@.skip(i as int)) {
                Some(t) => unescaped(value@) == Some(result@ + t),
                None => unescaped(value@) is None,
            },
        decreases n - i,
    {
        let ghost rest = value@.skip(i as int);
        let ghost before = result@;
        assert(rest[0] == chars@[i as int]);
        assert(rest.drop_first() =~= value@.skip(i + 1));
        if chars[i] != '\\' {
            result.push(chars[i]);
            i = i + 1;
            proof {
                match unescaped(value@.skip(i as int)) {
                    Some(t) => {
                        assert(before + (seq![rest[0]] + t) =~= result@ + t);
                    },
                    None => {},
                }
            }
        } else {
            let start: usize = i + 1;
            let end: usize = if n - start < 3 {
                n
            } else {
                start + 3
            };
            let ghost tail = rest.drop_first();
            assert(value@.subrange(start as int, end as int) =~= tail.take(end - start));
            assert(tail.skip(end - start) =~= value@.skip(end as int));
            let digits = string_of(&chars, start, end);
            match unsigned_of(digits.as_str(), 8, 255) {
                Some(v) => {
                    let c = (v as u8) as char;
                    result.push(c);
                    i = end;
                    proof {
                        match unescaped(value@.skip(i as int)) {
                            Some(t) => {
                                assert(before + (seq![c] + t) =~= result@ + t);
                            },
                            None => {},
                        }
                    }
                },
                None => {
                    return Err(BadEscape(value.to_string()));
                },
            }
        }
    }
    assert(value@.skip(i as int) =~= seq![]);
    assert(result@ + seq![] =~= result@);
    Ok(result)
}

/// What a line of `mountinfo` tells of a file.
pub enum LineOutcome {
    NoSeparator,
    NoMountpoint,
    /// The given path has a malformed escape.
    BadEscape(Seq<char>),
    NoFilesystem,
    /// The file is not below the mount.
    Unrelated,
    /// The file is below the mount at the given path, of the given file system.
    Mount(Seq<char>, Seq<char>),
}

/// Whether a file is below a mount.
pub open spec fn is_below(file: Seq<char>, mountpoint: Seq<char>) -> bool {
    mountpoint == "/"@ || match strip_prefix(file, mountpoint) {
        Some(rest) => "/"@.is_prefix_of(rest),
        None => false,
    }
}

/// What a line of `mountinfo` tells of a file.
pub open spec fn line_outcome(line: Seq<char>, file: Seq<char>) -> LineOutcome {
    match split_once(line, " - "@) {
        None => LineOutcome::NoSeparator,
        Some((before, after)) => {
            let fields = words(before, Class::AsciiWhite);
            if fields.len() <= 4 {
                LineOutcome::NoMountpoint
            } else {
                match unescaped(fields[4]) {
                    None => LineOutcome::BadEscape(fields[4]),
                    Some(mountpoint) => if !is_below(file, mountpoint) {
                        LineOutcome::Unrelated
                    } else if words(after, Class::AsciiWhite).len() == 0 {
                        LineOutcome::NoFilesystem
                    } else {
                        LineOutcome::Mount(mountpoint, words(after, Class::AsciiWhite)[0])
                    },
                }
            }
        },
    }
}

/// The mount that a file is on: the first of those with the longest path. `Err` holds the
/// position of the first line that cannot be read.
pub open spec fn selected_mount(ls: Seq<Seq<char>>, file: Seq<char>) -> Result<
    Option<(Seq<char>, Seq<char>)>,
    int,
>
    decreases ls.len(),
{
    if ls.len() == 0 {
        Ok(None)
    } else {
        match selected_mount(ls.drop_last(), file) {
            Err(i) => Err(i),
            Ok(best) => match line_outcome(ls.last(), file) {
                LineOutcome::Unrelated => Ok(best),
                LineOutcome::Mount(path, fs) => match best {
                    Some((p, _)) => if byte_len(path) > byte_len(p) {
                        Ok(Some((path, fs)))
                    } else {
                        Ok(best)
                    },
                    None => Ok(Some((path, fs))),
                },
                _ => Err(ls.len() - 1),
            },
        }
    }
}

/// Why `mountinfo` cannot be read.
#[derive(Debug)]
pub enum MountinfoError {
    /// The line with this number, counted from one, lacks its separator.
    NoSeparator(usize),
    NoMountpoint,
    BadEscape(String),
    NoFilesystem,
}

impl MountinfoError {
    /// The text of the error.
    pub open spec fn text(self) -> Seq<char> {
        match self {
            MountinfoError::NoSeparator(n) => "Mountinfo line "@ + decimal(n as nat)
                + " lacks separator"@,
            MountinfoError::NoMountpoint => "Mountinfo line lacks mountpoint"@,
            MountinfoError::BadEscape(path) => "Invalid mountinfo escape in "@ + quoted(path@),
            MountinfoError::NoFilesystem => "Mountinfo line lacks filesystem type"@,
        }
    }

    /// The text of the error.
    pub fn message(&self) -> (r: String)
        ensures
            r@ == self.text(),
    {
        match self {
            MountinfoError::NoSeparator(n) => {
                let number = decimal_of(*n as u64);
                concat3("Mountinfo line ", number.as_str(), " lacks separator")
            },
            MountinfoError::NoMountpoint => "Mountinfo line lacks mountpoint".to_string(),
            MountinfoError::BadEscape(path) => {
                let q = quote(path.as_str());
                concat2("Invalid mountinfo escape in ", q.as_str())
            },
            MountinfoError::NoFilesystem => "Mountinfo line lacks filesystem type".to_string(),
        }
    }
}

/// Whether an error is the one for a line.
pub open spec fn is_line_error(e: MountinfoError, outcome: LineOutcome, i: int) -> bool {
    match outcome {
        LineOutcome::NoSeparator => e == MountinfoError::NoSeparator((i + 1) as usize),
        LineOutcome::NoMountpoint => e is NoMountpoint,
        LineOutcome::BadEscape(path) => e matches MountinfoError::BadEscape(p) && p@ == path,
        LineOutcome::NoFilesystem => e is NoFilesystem,
        _ => false,
    }
}

/// A line that cannot be read is not made up for by those behind it.
proof fn lemma_selection_stays_bad(ls: Seq<Seq<char>>, file: Seq<char>, i: int)
    requires
        0 <= i <= ls.len(),
        selected_mount(ls.take(i), file) is Err,
    ensures
        selected_mount(ls, file) == selected_mount(ls.take(i), file),
    decreases ls.len() - i,
{
    if i < ls.len() {
        assert(ls.take(i + 1).drop_last() =~= ls.take(i));
        lemma_selection_stays_bad(ls, file, i + 1);
    } else {
        assert(ls.take(i) =~= ls);
    }
}

/// What a line of `mountinfo` tells of a file: a mount, that it is unrelated, or an error.
fn read_line(line: &str, file: &str, number: usize) -> (r: Result<
    Option<(String, String)>,
    MountinfoError,
>)
    requires
        number > 0,
    ensures
        match line_outcome(line@, file@) {
            LineOutcome::Unrelated => r matches Ok(None),
            LineOutcome::Mount(path, fs) => r matches Ok(Some((p, f))) && p@ == path && f@ == fs,
            outcome => r matches Err(e) && is_line_error(e, outcome, number - 1),
        },
{
    let (before, after) = match cut_once(line, " - ") {
        Some(parts) => parts,
        None => return Err(MountinfoError::NoSeparator(number)),
    };
    let fields = words_of(before.as_str(), Class::AsciiWhite);
    assert(texts(fields@).len() == fields@.len());
    if fields.len() <= 4 {
        return Err(MountinfoError::NoMountpoint);
    }
    assert(texts(fields@)[4] == fields@[4]@);
    let mountpoint = match unescape_mountinfo_path(fields[4].as_str()) {
        Ok(path) => path,
        Err(BadEscape(path)) => return Err(MountinfoError::BadEscape(path)),
    };
    let below = same(mountpoint.as_str(), "/") || match after_prefix(file, mountpoint.as_str()) {
        Some(rest) => begins_with(rest.as_str(), "/"),
        None => false,
    };
    if !below {
        return Ok(None);
    }
    let words_after = words_of(after.as_str(), Class::AsciiWhite);
    assert(texts(words_after@).len() == words_after@.len());
    if words_after.len() == 0 {
        return Err(MountinfoError::NoFilesystem);
    }
    assert(texts(words_after@)[0] == words_after@[0]@);
    Ok(Some((mountpoint, words_after[0].clone())))
}

/// What serves a file, by the file system that it is on.
pub open spec fn backing_is(b: ExecutableBacking, selected: Option<(Seq<char>, Seq<char>)>) -> bool {
    match selected {
        None => b is Unknown,
        Some((_, fs)) => if fs == "virtiofs"@ {
            b is Virtiofs
        } else if fs == "overlay"@ {
            b is OverlayUnknown
        } else {
            b matches ExecutableBacking::Other(name) && name@ == fs
        },
    }
}

/// What serves an executable, by `mountinfo`.
pub fn executable_backing(mountinfo: &str, executable: &str) -> (r: Result<
    ExecutableBacking,
    MountinfoError,
>)
    ensures
        match selected_mount(lines(mountinfo@), executable@) {
            Ok(selected) => r matches Ok(b) && backing_is(b, selected),
            Err(i) => 0 <= i < lines(mountinfo@).len() && (r matches Err(e) && is_line_error(
                e,
                line_outcome(lines(mountinfo@)[i], executable@),
                i,
            )),
        },
{
    let ls = lines_of(mountinfo);
    let ghost all = lines(mountinfo@);
    assert(all.len() == ls@.len());
    let n = ls.len();
    let mut selected: Option<(String, String)> = None;
    let mut i: usize = 0;
    assert(all.take(0) =~= seq![]);
    while i < n
        invariant
            n == ls@.len(),
            all == texts(ls@),
            all == lines(mountinfo@),
            i <= n,
            match selected {
                Some((p, f)) => selected_mount(all.take(i as int), executable@) == Ok::<_, int>(
                    Some((p@, f@)),
                ),
                None => selected_mount(all.take(i as int), executable@) == Ok::<_, int>(
                    None::<(Seq<char>, Seq<char>)>,
                ),
            },
        decreases n - i,
    {
        let ghost now = all.take(i + 1);
        assert(now.drop_last() =~= all.take(i as int));
        assert(now.last() == ls@[i as int]@);
        match read_line(ls[i].as_str(), executable, i + 1) {
            Err(e) => {
                proof {
                    assert(selected_mount(now, executable@) == Err::<
                        Option<(Seq<char>, Seq<char>)>,
                        int,
                    >(i as int));
                    lemma_selection_stays_bad(all, executable@, i + 1);
                }
                return Err(e);
            },
            Ok(None) => {},
            Ok(Some((path, fs))) => {
                let longer = match &selected {
                    Some((p, _)) => path.as_str().as_bytes().len() > p.as_str().as_bytes().len(),
                    None => true,
                };
                if longer {
                    selected = Some((path, fs));
                }
            },
        }
        i = i + 1;
    }
    assert(all.take(i as int) =~= all);
    match selected {
        None => Ok(ExecutableBacking::Unknown),
        Some((_, fs)) => if same(fs.as_str(), "virtiofs") {
            Ok(ExecutableBacking::Virtiofs)
        } else if same(fs.as_str(), "overlay") {
            Ok(ExecutableBacking::OverlayUnknown)
        } else {
            Ok(ExecutableBacking::Other(fs))
        },
    }
}

/// The mount that is selected is one that the file is below, and no mount that it is below
/// has a longer path.
pub proof fn law_longest_mount_is_selected(ls: Seq<Seq<char>>, file: Seq<char>)
    requires
        selected_mount(ls, file) is Ok,
    ensures
        match selected_mount(ls, file)->Ok_0 {
            Some((path, fs)) => {
                &&& exists|i: int|
                    0 <= i < ls.len() && line_outcome(#[trigger] ls[i], file) == LineOutcome::Mount(
                        path,
                        fs,
                    )
                &&& forall|i: int|
                    0 <= i < ls.len() ==> (line_outcome(#[trigger] ls[i], file) matches LineOutcome::Mount(
                        p,
                        _,
                    ) ==> byte_len(p) <= byte_len(path))
            },
            None => forall|i: int|
                0 <= i < ls.len() ==> line_outcome(#[trigger] ls[i], file) is Unrelated,
        },
    decreases ls.len(),
{
    if ls.len() > 0 {
        let before = ls.drop_last();
        let n = ls.len() - 1;
        law_longest_mount_is_selected(before, file);
        assert(forall|i: int| 0 <= i < before.len() ==> before[i] == ls[i]);
        assert(ls[n] == ls.last());
        match selected_mount(before, file)->Ok_0 {
            Some((path, fs)) => {
                let k = choose|k: int|
                    0 <= k < before.len() && line_outcome(#[trigger] before[k], file)
                        == LineOutcome::Mount(path, fs);
                assert(line_outcome(ls[k], file) == LineOutcome::Mount(path, fs));
                assert forall|i: int| 0 <= i < ls.len() implies (line_outcome(
                    #[trigger] ls[i],
                    file,
                ) matches LineOutcome::Mount(p, _) ==> byte_len(p) <= byte_len(
                    (selected_mount(ls, file)->Ok_0->0).0,
                )) by {
                    if i < n {
                        assert(before[i] == ls[i]);
                    }
                }
            },
            None => {
                assert forall|i: int| 0 <= i < n implies line_outcome(
                    #[trigger] ls[i],
                    file,
                ) is Unrelated by {
                    assert(before[i] == ls[i]);
                }
            },
        }
    }
}

/// An executable that is selected as served over virtiofs is locked in every mode.
pub proof fn law_virtiofs_is_always_locked(mode: MlockMode, backing: ExecutableBacking, r: bool)
    requires
        backing is Virtiofs,
        call_ensures(should_activate, (mode, &backing), r),
    ensures
        r,
{
}

// ---------------------------------------------------------------------------
// Locked memory
// ---------------------------------------------------------------------------

/// Why the amount of locked memory cannot be read.
#[derive(Debug, Clone, Copy, PartialEq, Eq, Structural)]
pub enum VmlckError {
    Missing,
    NoValue,
    NotANumber,
}

impl VmlckError {
    /// The text of the error.
    pub fn message(self) -> (r: &'static str)
        ensures
            r@ == (match self {
                VmlckError::Missing => "VmLck is missing from /proc/self/status"@,
                VmlckError::NoValue => "VmLck has no value in /proc/self/status"@,
                VmlckError::NotANumber => "Parsing VmLck from /proc/self/status"@,
            }),
    {
        match self {
            VmlckError::Missing => "VmLck is missing from /proc/self/status",
            VmlckError::NoValue => "VmLck has no value in /proc/self/status",
            VmlckError::NotANumber => "Parsing VmLck from /proc/self/status",
        }
    }
}

/// What the first line for locked memory says, behind its name.
pub open spec fn vmlck_line(ls: Seq<Seq<char>>) -> Option<Seq<char>>
    decreases ls.len(),
{
    if ls.len() == 0 {
        None
    } else {
        match vmlck_line(ls.drop_last()) {
            Some(s) => Some(s),
            None => strip_prefix(ls.last(), "VmLck:"@),
        }
    }
}

/// The amount of locked memory that a process status tells of, in KiB.
pub open spec fn vmlck(status: Seq<char>) -> Result<nat, VmlckError> {
    match vmlck_line(lines(status)) {
        None => Err(VmlckError::Missing),
        Some(rest) => {
            let fields = words(rest, Class::AsciiWhite);
            if fields.len() == 0 {
                Err(VmlckError::NoValue)
            } else {
                match parse_unsigned(fields[0], 10, u64::MAX as nat) {
                    Some(v) => Ok(v),
                    None => Err(VmlckError::NotANumber),
                }
            }
        },
    }
}

/// The amount of locked memory that a process status tells of, in KiB.
pub fn read_vmlck(status: &str) -> (r: Result<u64, VmlckError>)
    ensures
        match r {
            Ok(v) => vmlck(status@) == Ok::<nat, VmlckError>(v as nat),
            Err(e) => vmlck(status@) == Err::<nat, VmlckError>(e),
        },
{
    let ls = lines_of(status);
    let ghost all = lines(status@);
    let mut found: Option<String> = None;
    let mut i: usize = 0;
    assert(all.take(0) =~= seq![]);
    while i < ls.len()
        invariant
            i <= ls@.len(),
            texts(ls@) == all,
            opt_text(found) == vmlck_line(all.take(i as int)),
        decreases ls@.len() - i,
    {
        assert(all.take(i + 1).drop_last() =~= all.take(i as int));
        assert(all.take(i + 1).last() == ls@[i as int]@);
        if found.is_none() {
            found = after_prefix(ls[i].as_str(), "VmLck:");
        }
        i = i + 1;
    }
    assert(all.take(i as int) =~= all);
    match found {
        None => Err(VmlckError::Missing),
        Some(rest) => {
            let fields = words_of(rest.as_str(), Class::AsciiWhite);
            assert(texts(fields@).len() == fields@.len());
            if fields.len() == 0 {
                return Err(VmlckError::NoValue);
            }
            assert(texts(fields@)[0] == fields@[0]@);
            match unsigned_of(fields[0].as_str(), 10, u64::MAX) {
                Some(v) => Ok(v),
                None => Err(VmlckError::NotANumber),
            }
        },
    }
}

// ---------------------------------------------------------------------------
// The whole
// ---------------------------------------------------------------------------

/// What is done about the executable.
#[derive(Debug)]
pub struct MlockPlan {
    pub backing: ExecutableBacking,
    /// Why the backing counts as unknown, where `mountinfo` was there and could not be read.
    pub mountinfo_error: Option<MountinfoError>,
    /// The amount of locked memory before, in KiB.
    pub vmlck_before: u64,
    pub activate: bool,
}

/// What is done about the executable, by `mountinfo`, where it is there, and the status of the
/// process. A `mountinfo` that cannot be read leaves the backing unknown; a status that cannot
/// be read is an error.
pub fn plan_mlock(mode: MlockMode, mountinfo: Option<&str>, executable: &str, status: &str) -> (r:
    Result<MlockPlan, VmlckError>)
    ensures
        match vmlck(status@) {
            Err(e) => r == Err::<MlockPlan, VmlckError>(e),
            Ok(before) => r matches Ok(plan) && plan.vmlck_before == before && plan.activate == (
            mode == MlockMode::Force || plan.backing is Virtiofs) && match opt_str(mountinfo) {
                None => plan.backing is Unknown && plan.mountinfo_error is None,
                Some(text) => match selected_mount(lines(text), executable@) {
                    Ok(selected) => backing_is(plan.backing, selected)
                        && plan.mountinfo_error is None,
                    Err(i) => plan.backing is Unknown && 0 <= i < lines(text).len() && (
                    plan.mountinfo_error matches Some(e) && is_line_error(
                        e,
                        line_outcome(lines(text)[i], executable@),
                        i,
                    )),
                },
            },
        },
{
    let (backing, mountinfo_error) = match mountinfo {
        Some(text) => match executable_backing(text, executable) {
            Ok(backing) => (backing, None),
            Err(e) => (ExecutableBacking::Unknown, Some(e)),
        },
        None => (ExecutableBacking::Unknown, None),
    };
    let vmlck_before = match read_vmlck(status) {
        Ok(v) => v,
        Err(e) => return Err(e),
    };
    let activate = should_activate(mode, &backing);
    Ok(MlockPlan { backing, mountinfo_error, vmlck_before, activate })
}

/// The memory was locked to no effect.
#[derive(Debug, Clone, Copy, PartialEq, Eq, Structural)]
pub struct NotIncreased {
    pub before: u64,
    pub after: u64,
}

impl NotIncreased {
    /// The text of the error.
    pub fn message(self) -> (r: String)
        ensures
            r@ == "Experimental virtiofs mlockall(MCL_CURRENT) did not increase VmLck: before="@
                + decimal(self.before as nat) + " KiB after="@ + decimal(self.after as nat)
                + " KiB"@,
    {
        let before = decimal_of(self.before);
        let after = decimal_of(self.after);
        let head = concat3(
            "Experimental virtiofs mlockall(MCL_CURRENT) did not increase VmLck: before=",
            before.as_str(),
            " KiB after=",
        );
        concat3(head.as_str(), after.as_str(), " KiB")
    }
}

/// Whether more memory is locked than before.
pub fn check_increase(before: u64, after: u64) -> (r: Result<(), NotIncreased>)
    ensures
        r == (if after > before {
            Ok(())
        } else {
            Err::<(), NotIncreased>(NotIncreased { before, after })
        }),
{
    if after <= before {
        Err(NotIncreased { before, after })
    } else {
        Ok(())
    }
}

// ---------------------------------------------------------------------------
// Laws of what is read
// ---------------------------------------------------------------------------

/// A path without a backslash stands for itself. A backslash and three octal digits stand for the
/// character with that number, wherever they are, and are taken for nothing else.
pub proof fn law_escapes(a: Seq<char>, x: char, y: char, z: char, b: Seq<char>)
    requires
        lacks(a, '\\'),
        '0' <= x && x <= '3',
        '0' <= y && y <= '7',
        '0' <= z && z <= '7',
    ensures
        unescaped(a) == Some(a),
        unescaped(a + seq!['\\', x, y, z] + b) == match unescaped(b) {
            Some(t) => Some(
                a + seq![
                    (64 * (x as int - '0' as int) + 8 * (y as int - '0' as int) + (z as int
                        - '0' as int)) as char,
                ] + t,
            ),
            None => None,
        },
    decreases a.len(),
{
    let s = a + seq!['\\', x, y, z] + b;
    let n = 64 * (x as int - '0' as int) + 8 * (y as int - '0' as int) + (z as int - '0' as int);
    if a.len() == 0 {
        assert(a =~= seq![]);
        let rest = s.drop_first();
        assert(s[0] == '\\');
        assert(rest.take(3) =~= seq![x, y, z]);
        assert(rest.skip(3) =~= b);
        lemma_octal(x, y, z);
        if unescaped(b) is Some {
            let t = unescaped(b)->0;
            assert(a + seq![n as char] + t =~= seq![n as char] + t);
        }
    } else {
        let tail = a.drop_first();
        assert(a[0] != '\\');
        assert forall|i: int| 0 <= i < tail.len() implies #[trigger] tail[i] != '\\' by {
            assert(tail[i] == a[i + 1]);
        }
        law_escapes(tail, x, y, z, b);
        assert(seq![a[0]] + tail =~= a);
        assert(s[0] == a[0]);
        assert(s.drop_first() =~= tail + seq!['\\', x, y, z] + b);
        if unescaped(b) is Some {
            let t = unescaped(b)->0;
            assert(seq![a[0]] + (tail + seq![n as char] + t) =~= a + seq![n as char] + t);
        }
    }
}

/// The number that three octal digits stand for.
proof fn lemma_octal(x: char, y: char, z: char)
    requires
        '0' <= x && x <= '3',
        '0' <= y && y <= '7',
        '0' <= z && z <= '7',
    ensures
        parse_unsigned(seq![x, y, z], 8, 255) == Some(
            (64 * (x as int - '0' as int) + 8 * (y as int - '0' as int) + (z as int
                - '0' as int)) as nat,
        ),
{
    let digits = seq![x, y, z];
    let none: Seq<char> = seq![];
    assert(digits.drop_last() =~= seq![x, y]);
    assert(seq![x, y].drop_last() =~= seq![x]);
    assert(seq![x].drop_last() =~= none);
    assert(digits_value(none, 8) == Some(0nat));
    assert(digits_value(seq![x], 8) == Some((x as int - '0' as int) as nat));
    assert(digits_value(seq![x, y], 8) == Some(
        (8 * (x as int - '0' as int) + (y as int - '0' as int)) as nat,
    ));
    assert(digits[0] != '+');
}

/// A dash between spaces does not stand among words none of which is a dash.
proof fn lemma_no_dash(fields: Seq<Seq<char>>, x: Seq<char>, y: Seq<char>)
    requires
        forall|i: int| 0 <= i < fields.len() ==> is_word(#[trigger] fields[i]),
        forall|i: int| 0 <= i < fields.len() ==> #[trigger] fields[i] != seq!['-'],
    ensures
        join(fields, seq![' ']) != x.push(' ') + seq!['-'],
        join(fields, seq![' ']) != x.push(' ') + (seq!['-'].push(' ') + y),
{
    let w = Class::AsciiWhite;
    let all = join(fields, seq![' ']);
    let dash = seq!['-'];
    law_words_of_joined(fields);
    assert(is_word(dash));
    law_words(dash, ' ', y);
    if all == x.push(' ') + dash {
        law_words(x, ' ', dash);
        let k = words(x, w).len() as int;
        assert(fields[k] == dash);
    }
    if all == x.push(' ') + (dash.push(' ') + y) {
        law_words(x, ' ', dash.push(' ') + y);
        let k = words(x, w).len() as int;
        assert(fields[k] == dash);
    }
}

/// A line of fields and what follows a dash is parted at the dash.
proof fn lemma_line_parts(fields: Seq<Seq<char>>, after: Seq<char>)
    requires
        forall|i: int| 0 <= i < fields.len() ==> is_word(#[trigger] fields[i]),
        forall|i: int| 0 <= i < fields.len() ==> #[trigger] fields[i] != seq!['-'],
    ensures
        split_once(join(fields, seq![' ']) + " - "@ + after, " - "@) == Some(
            (join(fields, seq![' ']), after),
        ),
{
    reveal_strlit(" - ");
    let sep = " - "@;
    let before = join(fields, seq![' ']);
    let line = before + sep + after;
    let n = before.len() as int;
    law_split_once(line, sep);
    assert(line == (before + sep) + after);
    let (a, b) = split_once(line, sep)->0;
    assert(line.len() == a.len() + 3 + b.len());
    let i = a.len() as int;
    assert(line[i] == ' ' && line[i + 1] == '-' && line[i + 2] == ' ') by {
        assert(line == a + sep + b);
    }
    assert(line[n] == ' ' && line[n + 1] == '-' && line[n + 2] == ' ');
    if i < n {
        let x = before.take(i);
        if i + 1 == n {
            assert(line[n] == '-');
        } else if i + 2 == n {
            assert(before =~= x.push(' ') + seq!['-']);
            lemma_no_dash(fields, x, seq![]);
        } else {
            let y = before.skip(i + 3);
            assert(before =~= x.push(' ') + (seq!['-'].push(' ') + y));
            lemma_no_dash(fields, x, y);
        }
        assert(false);
    } else if i > n {
        assert(line.skip(n).take(3) =~= sep);
        assert(line.skip(n).len() >= 3);
        assert(false);
    }
    assert(line.take(n) =~= before);
    assert((a + sep + b).take(n) =~= a);
    assert(line.skip(n + 3) =~= after);
    assert((a + sep + b).skip(n + 3) =~= b);
}

/// A line of `mountinfo` names its mount in the fifth field, however many fields follow before the
/// dash, and its file system in the first behind the dash, whatever follows that. A file is on the
/// mount exactly if its path is that of the mount, a slash and more, or the mount is the root.
pub proof fn law_line_names_the_mount(
    fields: Seq<Seq<char>>,
    fs: Seq<char>,
    more: Seq<char>,
    file: Seq<char>,
)
    requires
        fields.len() >= 5,
        forall|i: int| 0 <= i < fields.len() ==> is_word(#[trigger] fields[i]),
        forall|i: int| 0 <= i < fields.len() ==> #[trigger] fields[i] != seq!['-'],
        lacks(fields[4], '\\'),
        is_word(fs),
    ensures
        ({
            let line = join(fields, seq![' ']) + " - "@ + (fs.push(' ') + more);
            let mountpoint = fields[4];
            &&& mountpoint == "/"@ ==> line_outcome(line, file) == LineOutcome::Mount(
                mountpoint,
                fs,
            )
            &&& forall|x: Seq<char>|
                file == #[trigger] (mountpoint + seq!['/'] + x) ==> line_outcome(line, file)
                    == LineOutcome::Mount(mountpoint, fs)
            &&& mountpoint != "/"@ && (forall|x: Seq<char>|
                file != #[trigger] (mountpoint + seq!['/'] + x)) ==> line_outcome(line, file)
                == LineOutcome::Unrelated
        }),
{
    let mountpoint = fields[4];
    let after = fs.push(' ') + more;
    lemma_line_parts(fields, after);
    law_words_of_joined(fields);
    law_escapes(mountpoint, '0', '0', '0', seq![]);
    law_words(fs, ' ', more);
    assert((seq![fs] + words(more, Class::AsciiWhite))[0] == fs);
    reveal_strlit("/");
    assert forall|x: Seq<char>| file == #[trigger] (mountpoint + seq!['/'] + x) implies is_below(
        file,
        mountpoint,
    ) by {
        assert(mountpoint =~= file.subrange(0, mountpoint.len() as int));
        let rest = file.skip(mountpoint.len() as int);
        assert("/"@ =~= rest.subrange(0, 1));
    }
    if mountpoint != "/"@ && is_below(file, mountpoint) {
        let rest = file.skip(mountpoint.len() as int);
        let x = rest.skip(1);
        assert(rest[0] == '/') by {
            assert(rest.subrange(0, 1)[0] == "/"@[0]);
        }
        assert(mountpoint =~= file.subrange(0, mountpoint.len() as int));
        assert(file =~= mountpoint + seq!['/'] + x);
    }
}

/// A line with fewer than five fields before the dash, and one without a dash, cannot be read.
pub proof fn law_short_lines_are_told(fields: Seq<Seq<char>>, after: Seq<char>, file: Seq<char>)
    requires
        fields.len() < 5,
        forall|i: int| 0 <= i < fields.len() ==> is_word(#[trigger] fields[i]),
        forall|i: int| 0 <= i < fields.len() ==> #[trigger] fields[i] != seq!['-'],
    ensures
        line_outcome(join(fields, seq![' ']) + " - "@ + after, file) is NoMountpoint,
        forall|line: Seq<char>|
            (forall|a: Seq<char>, b: Seq<char>| line != #[trigger] (a + " - "@ + b)) ==> (
            #[trigger] line_outcome(line, file)) is NoSeparator,
{
    lemma_line_parts(fields, after);
    law_words_of_joined(fields);
    reveal_strlit(" - ");
    assert forall|line: Seq<char>|
        (forall|a: Seq<char>, b: Seq<char>| line != #[trigger] (a + " - "@ + b)) implies (
    #[trigger] line_outcome(line, file)) is NoSeparator by {
        law_split_once(line, " - "@);
        if split_once(line, " - "@) is Some {
            let (a, b) = split_once(line, " - "@)->0;
            assert(line == a + " - "@ + b);
        }
    }
}

/// Of the mounts that a file is on the first with the longest path is selected; the lines are given
/// up at the first that cannot be read.
pub proof fn law_first_longest_mount_is_selected(ls: Seq<Seq<char>>, file: Seq<char>, k: int)
    requires
        0 <= k < ls.len(),
        line_outcome(ls[k], file) is Mount,
        forall|i: int|
            0 <= i < ls.len() ==> line_outcome(#[trigger] ls[i], file) is Unrelated || line_outcome(
                ls[i],
                file,
            ) is Mount,
        forall|i: int|
            0 <= i < k ==> (line_outcome(#[trigger] ls[i], file) matches LineOutcome::Mount(p, _)
                ==> byte_len(p) < byte_len(line_outcome(ls[k], file)->Mount_0)),
        forall|i: int|
            k < i < ls.len() ==> (line_outcome(#[trigger] ls[i], file) matches LineOutcome::Mount(
                p,
                _,
            ) ==> byte_len(p) <= byte_len(line_outcome(ls[k], file)->Mount_0)),
    ensures
        selected_mount(ls, file) == Ok::<_, int>(
            Some((line_outcome(ls[k], file)->Mount_0, line_outcome(ls[k], file)->Mount_1)),
        ),
    decreases ls.len(),
{
    let head = ls.drop_last();
    assert(forall|i: int| 0 <= i < head.len() ==> head[i] == ls[i]);
    let n = ls.len() - 1;
    assert(ls.last() == ls[n]);
    if k < n {
        assert(head[k] == ls[k]);
        law_first_longest_mount_is_selected(head, file, k);
        assert(line_outcome(ls[n], file) is Unrelated || line_outcome(ls[n], file) is Mount);
    } else {
        lemma_readable_lines(head, file);
        law_longest_mount_is_selected(head, file);
        if selected_mount(head, file)->Ok_0 is Some {
            let (path, fs) = selected_mount(head, file)->Ok_0->0;
            let i = choose|i: int|
                0 <= i < head.len() && line_outcome(#[trigger] head[i], file)
                    == LineOutcome::Mount(path, fs);
            assert(line_outcome(ls[i], file) is Mount);
        }
    }
}

/// Lines that can be read give a result.
proof fn lemma_readable_lines(ls: Seq<Seq<char>>, file: Seq<char>)
    requires
        forall|i: int|
            0 <= i < ls.len() ==> line_outcome(#[trigger] ls[i], file) is Unrelated || line_outcome(
                ls[i],
                file,
            ) is Mount,
    ensures
        selected_mount(ls, file) is Ok,
    decreases ls.len(),
{
    if ls.len() > 0 {
        let head = ls.drop_last();
        assert forall|i: int| 0 <= i < head.len() implies line_outcome(
            #[trigger] head[i],
            file,
        ) is Unrelated || line_outcome(head[i], file) is Mount by {
            assert(head[i] == ls[i]);
        }
        lemma_readable_lines(head, file);
        assert(ls.last() == ls[ls.len() - 1]);
    }
}

/// A line that cannot be read is told of, the first of them, whatever follows.
pub proof fn law_first_bad_line_is_told(ls: Seq<Seq<char>>, file: Seq<char>, k: int)
    requires
        0 <= k < ls.len(),
        !(line_outcome(ls[k], file) is Unrelated),
        !(line_outcome(ls[k], file) is Mount),
        forall|i: int|
            0 <= i < k ==> line_outcome(#[trigger] ls[i], file) is Unrelated || line_outcome(
                ls[i],
                file,
            ) is Mount,
    ensures
        selected_mount(ls, file) == Err::<Option<(Seq<char>, Seq<char>)>, int>(k),
{
    let head = ls.take(k);
    let now = ls.take(k + 1);
    assert forall|i: int| 0 <= i < head.len() implies line_outcome(
        #[trigger] head[i],
        file,
    ) is Unrelated || line_outcome(head[i], file) is Mount by {
        assert(head[i] == ls[i]);
    }
    lemma_readable_lines(head, file);
    assert(now.drop_last() =~= head);
    assert(now.last() == ls[k]);
    lemma_selection_stays_bad(ls, file, k + 1);
}

/// What serves a file is told by the name of the file system: `virtiofs`, `overlay` or another,
/// which is kept; by nothing where the file is on no mount.
pub proof fn law_file_system_tells_the_backing(
    b: ExecutableBacking,
    path: Seq<char>,
    fs: Seq<char>,
)
    ensures
        b is Virtiofs <==> backing_is(b, Some((path, "virtiofs"@))),
        b is OverlayUnknown <==> backing_is(b, Some((path, "overlay"@))),
        b is Unknown <==> backing_is(b, None),
        fs != "virtiofs"@ && fs != "overlay"@ ==> (backing_is(b, Some((path, fs))) <==> (
        b matches ExecutableBacking::Other(name) && name@ == fs)),
{
    reveal_strlit("virtiofs");
    reveal_strlit("overlay");
    assert("virtiofs"@.len() != "overlay"@.len());
}

/// The amount of locked memory is the first number behind `VmLck:`, on the first line that begins
/// so, whatever stands before and behind that line.
pub proof fn law_locked_memory_is_read(
    before: Seq<Seq<char>>,
    blanks: Seq<char>,
    n: nat,
    more: Seq<char>,
    after: Seq<Seq<char>>,
    status: Seq<char>,
)
    requires
        lines(status) == before.push("VmLck:"@ + blanks + decimal(n) + seq![' '] + more) + after,
        forall|i: int| 0 <= i < before.len() ==> !"VmLck:"@.is_prefix_of(#[trigger] before[i]),
        forall|i: int| 0 <= i < blanks.len() ==> #[trigger] blanks[i] == ' ' || blanks[i] == '\t',
        n <= u64::MAX,
    ensures
        vmlck(status) == Ok::<nat, VmlckError>(n),
{
    let w = Class::AsciiWhite;
    let name = "VmLck:"@;
    let line = name + blanks + decimal(n) + seq![' '] + more;
    let ls = before.push(line) + after;
    let rest = blanks + (decimal(n).push(' ') + more);
    assert(line =~= name + rest);
    lemma_vmlck_line(before, line, after);
    assert(name =~= line.subrange(0, name.len() as int));
    assert(line.skip(name.len() as int) =~= rest);
    law_decimal_is_digits(n);
    assert(is_word(decimal(n)));
    law_words(decimal(n), ' ', more);
    lemma_blanks_have_no_words(blanks, decimal(n).push(' ') + more);
    assert(words(rest, w)[0] == decimal(n));
    law_decimal_reads_back(n, u64::MAX as nat);
}

/// A status without the line for locked memory is told.
pub proof fn law_missing_locked_memory_is_told(status: Seq<char>)
    ensures
        vmlck(status) == Err::<nat, VmlckError>(VmlckError::Missing) <==> forall|i: int|
            0 <= i < lines(status).len() ==> !"VmLck:"@.is_prefix_of(#[trigger] lines(status)[i]),
{
    lemma_no_vmlck_line(lines(status));
}

/// No line for locked memory is found exactly where there is none.
proof fn lemma_no_vmlck_line(ls: Seq<Seq<char>>)
    ensures
        vmlck_line(ls) is None <==> forall|i: int|
            0 <= i < ls.len() ==> !"VmLck:"@.is_prefix_of(#[trigger] ls[i]),
    decreases ls.len(),
{
    if ls.len() > 0 {
        let head = ls.drop_last();
        lemma_no_vmlck_line(head);
        assert(forall|i: int| 0 <= i < head.len() ==> head[i] == ls[i]);
        assert(ls.last() == ls[ls.len() - 1]);
        if vmlck_line(head) is Some {
            let i = choose|i: int|
                0 <= i < head.len() && "VmLck:"@.is_prefix_of(#[trigger] head[i]);
            assert("VmLck:"@.is_prefix_of(ls[i]));
        }
    }
}

/// The first line for locked memory is found.
proof fn lemma_vmlck_line(before: Seq<Seq<char>>, line: Seq<char>, after: Seq<Seq<char>>)
    requires
        forall|i: int| 0 <= i < before.len() ==> !"VmLck:"@.is_prefix_of(#[trigger] before[i]),
        "VmLck:"@.is_prefix_of(line),
    ensures
        vmlck_line(before.push(line) + after) == Some(line.skip("VmLck:"@.len() as int)),
    decreases after.len(),
{
    let ls = before.push(line) + after;
    if after.len() == 0 {
        assert(ls =~= before.push(line));
        assert(ls.drop_last() =~= before);
        lemma_no_vmlck_line(before);
    } else {
        lemma_vmlck_line(before, line, after.drop_last());
        assert(ls.drop_last() =~= before.push(line) + after.drop_last());
    }
}

/// Blanks before a text add no words.
proof fn lemma_blanks_have_no_words(blanks: Seq<char>, s: Seq<char>)
    requires
        forall|i: int| 0 <= i < blanks.len() ==> #[trigger] blanks[i] == ' ' || blanks[i] == '\t',
    ensures
        words(blanks + s, Class::AsciiWhite) == words(s, Class::AsciiWhite),
    decreases blanks.len(),
{
    let w = Class::AsciiWhite;
    if blanks.len() == 0 {
        assert(blanks + s =~= s);
    } else {
        let head = blanks.drop_last();
        let c = blanks.last();
        assert(c == blanks[blanks.len() - 1]);
        assert forall|i: int| 0 <= i < head.len() implies #[trigger] head[i] == ' ' || head[i]
            == '\t' by {
            assert(head[i] == blanks[i]);
        }
        lemma_blanks_have_no_words(head, seq![]);
        assert(head + seq![] =~= head);
        law_words(head, c, s);
        assert(head.push(c) + s =~= blanks + s);
        assert(words(head, w) + words(s, w) =~= words(s, w));
    }
}

/// The modes have the names `auto` and `force`, and no other text names one.
pub proof fn law_mode_names(s: Seq<char>)
    ensures
        MlockMode::named(s) == Some(MlockMode::Auto) <==> s == "auto"@,
        MlockMode::named(s) == Some(MlockMode::Force) <==> s == "force"@,
        MlockMode::named(s) is None <==> s != "auto"@ && s != "force"@,
{
    reveal_strlit("auto");
    reveal_strlit("force");
    assert("auto"@.len() != "force"@.len());
}

/// The error for a line says what it lacks; one without a separator is told by its number, counted
/// from one.
pub proof fn law_line_errors(e: MountinfoError, i: int, path: Seq<char>)
    requires
        0 <= i < usize::MAX,
    ensures
        is_line_error(e, LineOutcome::NoSeparator, i) <==> (e matches MountinfoError::NoSeparator(n)
            && n == i + 1),
        is_line_error(e, LineOutcome::NoMountpoint, i) <==> e is NoMountpoint,
        is_line_error(e, LineOutcome::NoFilesystem, i) <==> e is NoFilesystem,
        is_line_error(e, LineOutcome::BadEscape(path), i) <==> (
        e matches MountinfoError::BadEscape(p) && p@ == path),
        !is_line_error(e, LineOutcome::Unrelated, i),
{
}

/// A line for locked memory without a value is told, and so is one whose value is no number.
pub proof fn law_bad_locked_memory_is_told(
    before: Seq<Seq<char>>,
    blanks: Seq<char>,
    word: Seq<char>,
    after: Seq<Seq<char>>,
    status: Seq<char>,
)
    requires
        lines(status) == before.push("VmLck:"@ + blanks + word) + after,
        forall|i: int| 0 <= i < before.len() ==> !"VmLck:"@.is_prefix_of(#[trigger] before[i]),
        forall|i: int| 0 <= i < blanks.len() ==> #[trigger] blanks[i] == ' ' || blanks[i] == '\t',
    ensures
        word.len() == 0 ==> vmlck(status) == Err::<nat, VmlckError>(VmlckError::NoValue),
        is_word(word) && !('0' <= word.last() && word.last() <= '9') ==> vmlck(status) == Err::<
            nat,
            VmlckError,
        >(VmlckError::NotANumber),
{
    let w = Class::AsciiWhite;
    let name = "VmLck:"@;
    let line = name + blanks + word;
    let rest = blanks + word;
    assert(line =~= name + rest);
    assert(name =~= line.subrange(0, name.len() as int));
    lemma_vmlck_line(before, line, after);
    assert(line.skip(name.len() as int) =~= rest);
    lemma_blanks_have_no_words(blanks, word);
    if word.len() == 0 {
        assert(words(word, w) =~= seq![]);
    } else if is_word(word) && !('0' <= word.last() && word.last() <= '9') {
        law_words(word, ' ', seq![]);
        assert(words(rest, w)[0] == word);
        let body = if word[0] == '+' {
            word.drop_first()
        } else {
            word
        };
        if body.len() > 0 {
            assert(body.last() == word.last());
            assert(digits_value(body, 10) is None);
        }
    }
}

/// A mount point without escapes whose file is below it, but without a file system behind the dash,
/// cannot be read; neither can one with an escape that is no number.
pub proof fn law_broken_lines_are_told(
    fields: Seq<Seq<char>>,
    blank: Seq<char>,
    file: Seq<char>,
    x: Seq<char>,
    head: Seq<char>,
    tail: Seq<char>,
)
    requires
        fields.len() >= 5,
        forall|i: int| 0 <= i < fields.len() ==> is_word(#[trigger] fields[i]),
        forall|i: int| 0 <= i < fields.len() ==> #[trigger] fields[i] != seq!['-'],
        forall|i: int| 0 <= i < blank.len() ==> #[trigger] blank[i] == ' ' || blank[i] == '\t',
    ensures
        lacks(fields[4], '\\') && file == fields[4] + seq!['/'] + x ==> line_outcome(
            join(fields, seq![' ']) + " - "@ + blank,
            file,
        ) is NoFilesystem,
        lacks(head, '\\') && fields[4] == head + seq!['\\', '9'] + tail ==> line_outcome(
            join(fields, seq![' ']) + " - "@ + blank,
            file,
        ) == LineOutcome::BadEscape(fields[4]),
{
    reveal_strlit("/");
    let mountpoint = fields[4];
    lemma_line_parts(fields, blank);
    law_words_of_joined(fields);
    lemma_blanks_have_no_words(blank, seq![]);
    assert(blank + seq![] =~= blank);
    if lacks(mountpoint, '\\') && file == mountpoint + seq!['/'] + x {
        law_escapes(mountpoint, '0', '0', '0', seq![]);
        assert(mountpoint =~= file.subrange(0, mountpoint.len() as int));
        let rest = file.skip(mountpoint.len() as int);
        assert("/"@ =~= rest.subrange(0, 1));
    }
    if lacks(head, '\\') && mountpoint == head + seq!['\\', '9'] + tail {
        lemma_bad_escape(head, tail);
    }
}

/// A backslash before a digit that is not octal is no escape.
proof fn lemma_bad_escape(head: Seq<char>, tail: Seq<char>)
    requires
        lacks(head, '\\'),
    ensures
        unescaped(head + seq!['\\', '9'] + tail) is None,
    decreases head.len(),
{
    let s = head + seq!['\\', '9'] + tail;
    if head.len() == 0 {
        let rest = s.drop_first();
        assert(s[0] == '\\');
        assert(rest[0] == '9');
        let n: int = if rest.len() < 3 {
            rest.len() as int
        } else {
            3
        };
        let digits = rest.take(n);
        assert(digits[0] == '9');
        lemma_bad_first_digit(digits);
    } else {
        let t = head.drop_first();
        assert(head[0] != '\\');
        assert forall|i: int| 0 <= i < t.len() implies #[trigger] t[i] != '\\' by {
            assert(t[i] == head[i + 1]);
        }
        lemma_bad_escape(t, tail);
        assert(s[0] == head[0]);
        assert(s.drop_first() =~= t + seq!['\\', '9'] + tail);
    }
}

/// What begins with a digit that is not octal has no value.
proof fn lemma_bad_first_digit(s: Seq<char>)
    requires
        s.len() > 0,
        s[0] == '9',
    ensures
        digits_value(s, 8) is None,
    decreases s.len(),
{
    if s.len() > 1 {
        assert(s.drop_last()[0] == '9');
        lemma_bad_first_digit(s.drop_last());
    } else {
        assert(s.last() == '9');
    }
}

/// What is told of `mountinfo` that cannot be read.
pub proof fn law_mountinfo_messages(n: usize, path: String)
    ensures
        MountinfoError::NoSeparator(n).text() == "Mountinfo line "@ + decimal(n as nat) + " lacks separator"@,
        MountinfoError::NoMountpoint.text() == "Mountinfo line lacks mountpoint"@,
        MountinfoError::BadEscape(path).text() == "Invalid mountinfo escape in "@ + quoted(path@),
        MountinfoError::NoFilesystem.text() == "Mountinfo line lacks filesystem type"@,
{
}

/// What is done about the executable: it is locked if that is forced, and else exactly if the mount
/// that it is on is of virtiofs.
pub proof fn law_plan(
    mode: MlockMode,
    mountinfo: &str,
    executable: &str,
    status: &str,
    path: Seq<char>,
    fs: Seq<char>,
    r: Result<MlockPlan, VmlckError>,
)
    requires
        call_ensures(plan_mlock, (mode, Some(mountinfo), executable, status), r),
        selected_mount(lines(mountinfo@), executable@) == Ok::<_, int>(Some((path, fs))),
        r is Ok,
    ensures
        r->Ok_0.activate <==> mode == MlockMode::Force || fs == "virtiofs"@,
        vmlck(status@) == Ok::<nat, VmlckError>(r->Ok_0.vmlck_before as nat),
        r->Ok_0.mountinfo_error is None,
{
    reveal_strlit("virtiofs");
    reveal_strlit("overlay");
    assert("virtiofs"@.len() != "overlay"@.len());
}

/// Locking has to increase the amount of locked memory; else it is told, with both amounts.
pub proof fn law_increase(before: u64, after: u64, r: Result<(), NotIncreased>)
    requires
        call_ensures(check_increase, (before, after), r),
    ensures
        r is Ok <==> after > before,
        r matches Err(e) ==> e.before == before && e.after == after,
{
}

/// Fewer than three octal digits at the end of a path are an escape too; a backslash at the end is none.
pub proof fn law_short_escapes(a: Seq<char>, y: char, z: char)
    requires
        lacks(a, '\\'),
        '0' <= y && y <= '7',
        '0' <= z && z <= '7',
    ensures
        unescaped(a + seq!['\\', y, z]) == Some(
            a.push((8 * (y as int - '0' as int) + (z as int - '0' as int)) as char),
        ),
        unescaped(a + seq!['\\', z]) == Some(a.push((z as int - '0' as int) as char)),
        unescaped(a.push('\\')) is None,
    decreases a.len(),
{
    let two = a + seq!['\\', y, z];
    let one = a + seq!['\\', z];
    let zero = a.push('\\');
    let none: Seq<char> = seq![];
    if a.len() == 0 {
        reveal_with_fuel(digits_value, 4);
        assert(unescaped(none) == Some(none));
        let t = two.drop_first();
        assert(t.take(2) =~= seq![y, z]);
        assert(t.skip(2) =~= none);
        assert(seq![y, z].drop_last() =~= seq![y]);
        assert(seq![y].drop_last() =~= none);
        let n = 8 * (y as int - '0' as int) + (z as int - '0' as int);
        assert(seq![y, z][0] != '+');
        assert(parse_unsigned(seq![y, z], 8, 255) == Some(n as nat));
        assert(seq![n as char] + none =~= a.push(n as char));
        let o = one.drop_first();
        assert(o.take(1) =~= seq![z]);
        assert(o.skip(1) =~= none);
        assert(seq![z].drop_last() =~= none);
        let m = z as int - '0' as int;
        assert(seq![z][0] != '+');
        assert(parse_unsigned(seq![z], 8, 255) == Some(m as nat));
        assert(seq![m as char] + none =~= a.push(m as char));
        let e = zero.drop_first();
        assert(e =~= none);
        assert(e.take(0) =~= none);
        assert(parse_unsigned(none, 8, 255) is None);
    } else {
        let tail = a.drop_first();
        assert(a[0] != '\\');
        assert forall|i: int| 0 <= i < tail.len() implies #[trigger] tail[i] != '\\' by {
            assert(tail[i] == a[i + 1]);
        }
        law_short_escapes(tail, y, z);
        assert(two.drop_first() =~= tail + seq!['\\', y, z]);
        assert(one.drop_first() =~= tail + seq!['\\', z]);
        assert(zero.drop_first() =~= tail.push('\\'));
        let n = 8 * (y as int - '0' as int) + (z as int - '0' as int);
        let m = z as int - '0' as int;
        assert(seq![a[0]] + tail.push(n as char) =~= a.push(n as char));
        assert(seq![a[0]] + tail.push(m as char) =~= a.push(m as char));
    }
}

} // verus!
