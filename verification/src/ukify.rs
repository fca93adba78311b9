//! Building unified kernel images (UKI) with `ukify`.
//!
//! The arguments of `ukify` come from a container image. A UKI with a digest of the first
//! version also carries the legacy digest of the second, for clients that know only that.

use vstd::prelude::*;

use composefs::fsverity::{FsVerityHashValue, Sha512HashValue};

use crate::cmdline::{
    build_cmdline, has_param, is_closed, is_param, law_params_are_there, lemma_params_are_their_own,
    lemma_params_of_add, lemma_params_of_are_params, lemma_unspaced_is_param, params_of,
    with_params,
};
use crate::paths::{join_path, joined_path, law_joined_path};
use crate::text::{
    concat2, concat3, is_blank, is_hex_digit, is_printable_ascii, law_trim, lossy, no_texts,
    push_text, push_texts, text_of_bytes, texts, trim, trimmed, Class,
};

verus! {

/// The file by which an initramfs tells that it knows digests of the first version.
pub const COMPOSEFS_DIGEST_V1_FEATURE: &'static str =
    "/usr/lib/bootc/initramfs-features/composefs-digest-v1";

/// What that file holds.
pub const COMPOSEFS_DIGEST_V1_FEATURE_CONTENT: &'static str = "composefs-digest-v1 state-v1\n";

// ---------------------------------------------------------------------------
// The version of the digest
// ---------------------------------------------------------------------------

/// The version of the EROFS format that a digest is computed over.
#[derive(Debug, Clone, Copy, PartialEq, Eq, Structural)]
pub enum FormatVersion {
    V1,
    V2,
}

/// The version that the user asks for.
#[derive(Debug, Clone, Copy, PartialEq, Eq, Structural)]
pub enum ErofsVersionArg {
    V1,
    V2,
}

/// What a run of `lsinitrd` printed.
#[derive(Debug)]
pub struct ProbeOutput {
    pub success: bool,
    pub stdout: Vec<u8>,
    pub stderr: Vec<u8>,
}

/// `lsinitrd` could not be run, for the given reason.
#[derive(Debug)]
pub struct ProbeError(pub String);

/// Why there is no version.
#[derive(Debug)]
pub enum ResolveError {
    /// `lsinitrd` could not be run on the named initramfs.
    Archive(String, ProbeError),
    /// `lsinitrd` cannot read the named initramfs, and says why.
    Unreadable(String, String),
    /// `lsinitrd` could not be run for a file of the named initramfs.
    Feature(String, ProbeError),
    /// The named initramfs holds another marker than it should.
    UnexpectedMarker(String),
    /// The first version was asked for, and the initramfs does not know it.
    Unsupported,
}

impl ResolveError {
    /// The text of the error.
    pub open spec fn text(self) -> Seq<char> {
        match self {
            ResolveError::Archive(path, _) => "Validating initramfs "@ + path@,
            ResolveError::Unreadable(path, why) => "Validating initramfs "@ + path@
                + " failed: lsinitrd could not read the archive: "@ + why@,
            ResolveError::Feature(path, _) => "Reading composefs capability from initramfs "@
                + path@,
            ResolveError::UnexpectedMarker(path) => "Initramfs "@ + path@
                + " has an unexpected composefs V1 capability marker; rebuild its initramfs"@,
            ResolveError::Unsupported => {
                "--erofs-version=v1 requires an initramfs with composefs V1 support; rebuild the initramfs with current bootc or use --erofs-version=v2"@
            },
        }
    }

    /// The text of the error.
    pub fn message(&self) -> (r: String)
        ensures
            r@ == self.text(),
    {
        match self {
            ResolveError::Archive(path, _) => concat2("Validating initramfs ", path.as_str()),
            ResolveError::Unreadable(path, why) => {
                let head = concat3(
                    "Validating initramfs ",
                    path.as_str(),
                    " failed: lsinitrd could not read the archive: ",
                );
                concat2(head.as_str(), why.as_str())
            },
            ResolveError::Feature(path, _) => concat2(
                "Reading composefs capability from initramfs ",
                path.as_str(),
            ),
            ResolveError::UnexpectedMarker(path) => concat3(
                "Initramfs ",
                path.as_str(),
                " has an unexpected composefs V1 capability marker; rebuild its initramfs",
            ),
            ResolveError::Unsupported => {
                "--erofs-version=v1 requires an initramfs with composefs V1 support; rebuild the initramfs with current bootc or use --erofs-version=v2".to_string()
            },
        }
    }
}

/// Whether bytes stand somewhere in others.
pub open spec fn holds_bytes(s: Seq<u8>, p: Seq<u8>) -> bool {
    exists|i: int| 0 <= i && i + p.len() <= s.len() && #[trigger] s.subrange(i, i + p.len()) == p
}

/// Whether `p` stands in `s` at a position.
fn bytes_at(s: &Vec<u8>, p: &[u8], at: usize) -> (r: bool)
    requires
        at + p@.len() <= s@.len(),
    ensures
        r == (s@.subrange(at as int, at + p@.len()) == p@),
{
    let mut i: usize = 0;
    let n = s.len();
    let ghost part = s@.subrange(at as int, at + p@.len());
    while i < p.len()
        invariant
            i <= p@.len(),
            n == s@.len(),
            at + p@.len() <= n,
            part == s@.subrange(at as int, at + p@.len()),
            forall|j: int| 0 <= j < i ==> part[j] == p@[j],
        decreases p@.len() - i,
    {
        if s[at + i] != p[i] {
            assert(part[i as int] != p@[i as int]);
            return false;
        }
        i = i + 1;
    }
    assert(part =~= p@);
    true
}

/// Whether bytes stand somewhere in others.
fn find_bytes(s: &Vec<u8>, p: &[u8]) -> (r: bool)
    ensures
        r == holds_bytes(s@, p@),
{
    let n = s.len();
    let m = p.len();
    if m > n {
        return false;
    }
    let last = n - m;
    let mut i: usize = 0;
    while i < last
        invariant
            last == s@.len() - p@.len(),
            m == p@.len(),
            i <= last,
            forall|j: int| 0 <= j < i ==> #[trigger] s@.subrange(j, j + m) != p@,
        decreases last - i,
    {
        if bytes_at(s, p, i) {
            return true;
        }
        i = i + 1;
    }
    bytes_at(s, p, last)
}

/// What is known of the marker in an initramfs.
pub enum Marker {
    Present,
    Absent,
    Unexpected,
}

/// What is known of the marker in an initramfs, from its listing and from what was read of the
/// marker.
///
/// Versions of `lsinitrd` differ in whether a file that is not there is a failure; it prints
/// nothing in either case. A marker that is listed and empty is not absent.
pub open spec fn marker(listing: Seq<u8>, content: Seq<u8>) -> Marker {
    if content == vstd::utf8::encode_utf8(COMPOSEFS_DIGEST_V1_FEATURE_CONTENT@) {
        Marker::Present
    } else if content.len() == 0 && !holds_bytes(
        listing,
        vstd::utf8::encode_utf8(COMPOSEFS_DIGEST_V1_FEATURE@),
    ) {
        Marker::Absent
    } else {
        Marker::Unexpected
    }
}

/// Whether two runs of bytes are the same.
fn same_bytes(a: &Vec<u8>, b: &[u8]) -> (r: bool)
    ensures
        r == (a@ == b@),
{
    if a.len() != b.len() {
        return false;
    }
    assert(a@.subrange(0, b@.len() as int) =~= a@);
    bytes_at(a, b, 0)
}

/// Whether `r` is the version for a marker: the first where the initramfs knows it, else the
/// second, unless the first was asked for.
pub open spec fn is_choice(
    r: Result<FormatVersion, ResolveError>,
    requested: Option<ErofsVersionArg>,
    initramfs: Seq<char>,
    m: Marker,
) -> bool {
    match m {
        Marker::Unexpected => r matches Err(ResolveError::UnexpectedMarker(p)) && p@ == initramfs,
        Marker::Present => r == Ok::<_, ResolveError>(FormatVersion::V1),
        Marker::Absent => if requested == Some(ErofsVersionArg::V1) {
            r matches Err(ResolveError::Unsupported)
        } else {
            r == Ok::<_, ResolveError>(FormatVersion::V2)
        },
    }
}

/// The version for what was read of an initramfs that could be listed.
pub fn choose_erofs_version(
    requested: Option<ErofsVersionArg>,
    initramfs: &str,
    listing: &Vec<u8>,
    content: &Vec<u8>,
) -> (r: Result<FormatVersion, ResolveError>)
    ensures
        is_choice(r, requested, initramfs@, marker(listing@, content@)),
{
    if same_bytes(content, COMPOSEFS_DIGEST_V1_FEATURE_CONTENT.as_bytes()) {
        return Ok(FormatVersion::V1);
    }
    if content.len() != 0 || find_bytes(listing, COMPOSEFS_DIGEST_V1_FEATURE.as_bytes()) {
        return Err(ResolveError::UnexpectedMarker(initramfs.to_string()));
    }
    match requested {
        Some(ErofsVersionArg::V1) => Err(ResolveError::Unsupported),
        _ => Ok(FormatVersion::V2),
    }
}

/// Whether `r` follows from what `lsinitrd` said of the marker.
pub open spec fn follows_feature(
    r: Result<FormatVersion, ResolveError>,
    requested: Option<ErofsVersionArg>,
    initramfs: Seq<char>,
    archive: ProbeOutput,
    feature: Result<ProbeOutput, ProbeError>,
) -> bool {
    match feature {
        Err(e) => r matches Err(ResolveError::Feature(p, cause)) && p@ == initramfs && cause == e,
        Ok(f) => is_choice(r, requested, initramfs, marker(archive.stdout@, f.stdout@)),
    }
}

/// Whether `r` follows from what `lsinitrd` said of the archive, where that settles it.
pub open spec fn follows_archive(
    r: Result<FormatVersion, ResolveError>,
    initramfs: Seq<char>,
    archive: Result<ProbeOutput, ProbeError>,
) -> bool {
    match archive {
        Err(e) => r matches Err(ResolveError::Archive(p, cause)) && p@ == initramfs && cause == e,
        Ok(a) => !a.success && (r matches Err(ResolveError::Unreadable(p, why)) && p@ == initramfs
            && why@ == trim(lossy(a.stderr@))),
    }
}

/// The arguments by which `lsinitrd` lists an initramfs.
pub open spec fn archive_args(initramfs: Seq<char>) -> Seq<Seq<char>> {
    seq![initramfs]
}

/// The arguments by which `lsinitrd` prints the marker of an initramfs.
pub open spec fn feature_args(initramfs: Seq<char>) -> Seq<Seq<char>> {
    seq!["--file"@, COMPOSEFS_DIGEST_V1_FEATURE@, initramfs]
}

/// The version of the digest of a UKI.
///
/// The second version is taken without a look at the initramfs where it was asked for. Else the
/// initramfs is listed and its marker is read, both by `run`; nothing in it is executed.
pub fn resolve_erofs_version_with<F: Fn(&Vec<String>) -> Result<ProbeOutput, ProbeError>>(
    requested: Option<ErofsVersionArg>,
    initramfs: &str,
    run: F,
) -> (r: Result<FormatVersion, ResolveError>)
    requires
        forall|args: &Vec<String>| #[trigger] call_requires(run, (args,)),
    ensures
        if requested == Some(ErofsVersionArg::V2) {
            r == Ok::<_, ResolveError>(FormatVersion::V2)
        } else {
            exists|args: &Vec<String>, archive: Result<ProbeOutput, ProbeError>| #[trigger]
                call_ensures(run, (args,), archive) && texts(args@) == archive_args(initramfs@) && (
                follows_archive(r, initramfs@, archive) || (archive is Ok && archive->Ok_0.success
                    && exists|args2: &Vec<String>, feature: Result<ProbeOutput, ProbeError>|
                     #[trigger]
                    call_ensures(run, (args2,), feature) && texts(args2@) == feature_args(
                        initramfs@,
                    ) && follows_feature(r, requested, initramfs@, archive->Ok_0, feature)))
        },
{
    match requested {
        Some(ErofsVersionArg::V2) => {
            return Ok(FormatVersion::V2);
        },
        _ => {},
    }
    let mut list_args = no_texts();
    push_text(&mut list_args, initramfs);
    assert(texts(list_args@) =~= archive_args(initramfs@));
    let archive = run(&list_args);
    let listed = match archive {
        Ok(a) => a,
        Err(e) => {
            let r = Err(ResolveError::Archive(initramfs.to_string(), e));
            assert(follows_archive(r, initramfs@, archive));
            return r;
        },
    };
    if !listed.success {
        let why = text_of_bytes(listed.stderr.as_slice());
        let why = trimmed(why.as_str());
        let r = Err(ResolveError::Unreadable(initramfs.to_string(), why));
        assert(follows_archive(r, initramfs@, archive));
        return r;
    }
    let mut file_args = no_texts();
    push_text(&mut file_args, "--file");
    push_text(&mut file_args, COMPOSEFS_DIGEST_V1_FEATURE);
    push_text(&mut file_args, initramfs);
    assert(texts(file_args@) =~= feature_args(initramfs@));
    let feature = run(&file_args);
    let r = match &feature {
        Ok(f) => choose_erofs_version(requested, initramfs, &listed.stdout, &f.stdout),
        Err(ProbeError(why)) => Err(
            ResolveError::Feature(initramfs.to_string(), ProbeError(why.clone())),
        ),
    };
    assert(follows_feature(r, requested, initramfs@, listed, feature));
    assert(archive->Ok_0 == listed);
    r
}

/// A UKI of the first version is built only for an initramfs with the marker.
pub proof fn law_v1_needs_the_marker(
    requested: Option<ErofsVersionArg>,
    initramfs: Seq<char>,
    listing: Seq<u8>,
    content: Seq<u8>,
)
    requires
        is_choice(Ok(FormatVersion::V1), requested, initramfs, marker(listing, content)),
    ensures
        content == vstd::utf8::encode_utf8(COMPOSEFS_DIGEST_V1_FEATURE_CONTENT@),
{
}

/// Where the first version was asked for, the second never comes.
pub proof fn law_v1_is_never_downgraded(initramfs: Seq<char>, m: Marker)
    ensures
        !is_choice(Ok(FormatVersion::V2), Some(ErofsVersionArg::V1), initramfs, m),
{
}

// ---------------------------------------------------------------------------
// Digests
// ---------------------------------------------------------------------------

/// A digest of `composefs`.
#[verifier::external_type_specification]
#[verifier::external_body]
pub struct ExSha512HashValue(Sha512HashValue);

/// The hexadecimal text of a digest.
pub uninterp spec fn digest_hex(d: Sha512HashValue) -> Seq<char>;

/// A hexadecimal digit in lower case.
pub open spec fn lower_hex(c: char) -> char {
    match c {
        'A' => 'a',
        'B' => 'b',
        'C' => 'c',
        'D' => 'd',
        'E' => 'e',
        'F' => 'f',
        _ => c,
    }
}

/// Hexadecimal digits in lower case.
pub open spec fn lower_hex_text(s: Seq<char>) -> Seq<char> {
    Seq::new(s.len(), |i: int| lower_hex(s[i]))
}

/// Whether a text is that of a digest: 128 hexadecimal digits.
pub open spec fn is_digest_text(s: Seq<char>) -> bool {
    s.len() == 128 && forall|i: int| 0 <= i < s.len() ==> is_hex_digit(#[trigger] s[i])
}

/// Calls `Sha512HashValue::from_hex`: it takes 128 hexadecimal digits in either case, which are
/// the digest, and nothing else.
#[verifier::external_body]
pub(crate) fn parse_digest(hex: &str) -> (r: Option<Sha512HashValue>)
    ensures
        match r {
            Some(d) => is_digest_text(hex@) && digest_hex(d) == lower_hex_text(hex@),
            None => !is_digest_text(hex@),
        },
{
    Sha512HashValue::from_hex(hex).ok()
}

/// Calls `Sha512HashValue::to_hex`: the hexadecimal text of the digest, 128 digits in lower case.
#[verifier::external_body]
pub(crate) fn digest_text(d: &Sha512HashValue) -> (r: String)
    ensures
        r@ == digest_hex(*d),
        is_digest_text(r@),
{
    d.to_hex()
}

/// The kernel argument for a digest. The question mark allows files without fs-verity.
pub open spec fn composefs_karg(hex: Seq<char>, version: FormatVersion, allow_missing: bool) -> Seq<
    char,
> {
    let optional = if allow_missing {
        "?"@
    } else {
        ""@
    };
    match version {
        FormatVersion::V1 => "composefs.digest="@ + optional + "v1-sha512-12:"@ + hex,
        FormatVersion::V2 => "composefs="@ + optional + hex,
    }
}

/// The kernel argument for a digest.
pub fn build_composefs_karg(digest: &Sha512HashValue, version: FormatVersion, allow_missing: bool) -> (r:
    String)
    ensures
        r@ == composefs_karg(digest_hex(*digest), version, allow_missing),
{
    let hex = digest_text(digest);
    let optional = if allow_missing {
        "?"
    } else {
        ""
    };
    match version {
        FormatVersion::V1 => {
            let head = concat3("composefs.digest=", optional, "v1-sha512-12:");
            concat2(head.as_str(), hex.as_str())
        },
        FormatVersion::V2 => concat3("composefs=", optional, hex.as_str()),
    }
}

/// The kernel arguments for the digests of a UKI: the preferred one, then the legacy one for
/// clients that know only that.
pub open spec fn uki_kargs(
    preferred: Seq<char>,
    version: FormatVersion,
    compatibility: Option<Seq<char>>,
    allow_missing: bool,
) -> Seq<Seq<char>> {
    seq![composefs_karg(preferred, version, allow_missing)] + match compatibility {
        Some(hex) => seq![composefs_karg(hex, FormatVersion::V2, allow_missing)],
        None => seq![],
    }
}

/// The kernel arguments for the digests of a UKI.
pub fn composefs_kargs_for_uki(
    preferred_digest: &Sha512HashValue,
    preferred_version: FormatVersion,
    compatibility_v2_digest: Option<&Sha512HashValue>,
    allow_missing_fsverity: bool,
) -> (r: Vec<String>)
    ensures
        texts(r@) == uki_kargs(
            digest_hex(*preferred_digest),
            preferred_version,
            match compatibility_v2_digest {
                Some(d) => Some(digest_hex(*d)),
                None => None,
            },
            allow_missing_fsverity,
        ),
{
    let mut kargs = no_texts();
    let preferred = build_composefs_karg(
        preferred_digest,
        preferred_version,
        allow_missing_fsverity,
    );
    push_text(&mut kargs, preferred.as_str());
    match compatibility_v2_digest {
        Some(d) => {
            let legacy = build_composefs_karg(d, FormatVersion::V2, allow_missing_fsverity);
            push_text(&mut kargs, legacy.as_str());
        },
        None => {},
    }
    assert(texts(kargs@) =~= uki_kargs(
        digest_hex(*preferred_digest),
        preferred_version,
        match compatibility_v2_digest {
            Some(d) => Some(digest_hex(*d)),
            None => None,
        },
        allow_missing_fsverity,
    ));
    kargs
}

// ---------------------------------------------------------------------------
// The course of a build
// ---------------------------------------------------------------------------

/// What a kernel is made of.
#[derive(Debug)]
pub enum KernelType {
    Vmlinuz { path: String, initramfs: String },
    Uki { path: String },
}

/// A kernel and its version.
#[derive(Debug)]
pub struct Kernel {
    pub k_type: KernelType,
    pub version: String,
}

/// Why there is no UKI.
#[derive(Debug)]
pub enum UkifyError {
    /// There is no kernel in the named root.
    NoKernel(String),
    /// There is a UKI already, at the named path.
    AlreadyUki(String),
    KernelMissing(String),
    InitramfsMissing(String),
    NoUkify,
    BadDigest,
    BadV2Digest,
}

impl UkifyError {
    /// The text of the error.
    pub open spec fn text(self) -> Seq<char> {
        match self {
            UkifyError::NoKernel(rootfs) => "No kernel found in "@ + rootfs@,
            UkifyError::AlreadyUki(path) => "Cannot build UKI: rootfs already contains a UKI at "@
                + path@,
            UkifyError::KernelMissing(path) => "Kernel not found at "@ + path@,
            UkifyError::InitramfsMissing(path) => "Initramfs not found at "@ + path@,
            UkifyError::NoUkify => {
                "ukify executable not found in PATH. Please install systemd-ukify or equivalent."@
            },
            UkifyError::BadDigest => "Parsing computed composefs digest"@,
            UkifyError::BadV2Digest => "Parsing computed V2 digest"@,
        }
    }

    /// The text of the error.
    pub fn message(&self) -> (r: String)
        ensures
            r@ == self.text(),
    {
        match self {
            UkifyError::NoKernel(rootfs) => concat2("No kernel found in ", rootfs.as_str()),
            UkifyError::AlreadyUki(path) => concat2(
                "Cannot build UKI: rootfs already contains a UKI at ",
                path.as_str(),
            ),
            UkifyError::KernelMissing(path) => concat2("Kernel not found at ", path.as_str()),
            UkifyError::InitramfsMissing(path) => concat2(
                "Initramfs not found at ",
                path.as_str(),
            ),
            UkifyError::NoUkify => {
                "ukify executable not found in PATH. Please install systemd-ukify or equivalent.".to_string()
            },
            UkifyError::BadDigest => "Parsing computed composefs digest".to_string(),
            UkifyError::BadV2Digest => "Parsing computed V2 digest".to_string(),
        }
    }
}

/// The files of a kernel that is to go into a UKI.
#[derive(Debug)]
pub struct KernelFiles {
    pub vmlinuz: String,
    pub initramfs: String,
    pub version: String,
}

/// The files of the kernel that was given, or else found in the root.
pub fn select_kernel(kernel: Option<&Kernel>, rootfs: &str) -> (r: Result<KernelFiles, UkifyError>)
    ensures
        match kernel {
            None => r matches Err(UkifyError::NoKernel(p)) && p@ == rootfs@,
            Some(k) => match k.k_type {
                KernelType::Uki { path } => r matches Err(UkifyError::AlreadyUki(p)) && p@ == path@,
                KernelType::Vmlinuz { path, initramfs } => r matches Ok(f) && f.vmlinuz@ == path@
                    && f.initramfs@ == initramfs@ && f.version@ == k.version@,
            },
        },
{
    match kernel {
        None => Err(UkifyError::NoKernel(rootfs.to_string())),
        Some(k) => match &k.k_type {
            KernelType::Uki { path } => Err(UkifyError::AlreadyUki(path.clone())),
            KernelType::Vmlinuz { path, initramfs } => Ok(
                KernelFiles {
                    vmlinuz: path.clone(),
                    initramfs: initramfs.clone(),
                    version: k.version.clone(),
                },
            ),
        },
    }
}

/// A kernel whose files are there, and whose initramfs comes next.
#[derive(Debug)]
pub struct CheckedKernel {
    files: KernelFiles,
}

/// A kernel whose initramfs was looked at, and whose UKI has a version.
#[derive(Debug)]
pub struct VersionedUki {
    files: KernelFiles,
    version: FormatVersion,
}

/// A UKI that can be built.
#[derive(Debug)]
pub struct ReadyUki {
    files: KernelFiles,
    version: FormatVersion,
}

/// The digests of the root: a UKI of the first version has both.
#[derive(Debug)]
pub enum RootDigests<'a> {
    V1 { preferred: &'a str, compatibility: &'a str },
    V2 { digest: &'a str },
}

impl KernelFiles {
    /// Goes on when both files are there; the kernel is looked for first.
    pub fn checked(self, vmlinuz_exists: bool, initramfs_exists: bool) -> (r: Result<
        CheckedKernel,
        UkifyError,
    >)
        ensures
            if !vmlinuz_exists {
                r matches Err(UkifyError::KernelMissing(p)) && p@ == self.vmlinuz@
            } else if !initramfs_exists {
                r matches Err(UkifyError::InitramfsMissing(p)) && p@ == self.initramfs@
            } else {
                r matches Ok(k) && k.files() == self
            },
    {
        if !vmlinuz_exists {
            Err(UkifyError::KernelMissing(self.vmlinuz))
        } else if !initramfs_exists {
            Err(UkifyError::InitramfsMissing(self.initramfs))
        } else {
            Ok(CheckedKernel { files: self })
        }
    }
}

impl CheckedKernel {
    /// The files of the kernel.
    pub closed spec fn files(&self) -> KernelFiles {
        self.files
    }

    /// The initramfs as it is seen from outside of the root.
    pub fn archive(&self, rootfs: &str) -> (r: String)
        ensures
            r@ == joined_path(rootfs@, self.files().initramfs@),
    {
        join_path(rootfs, self.files.initramfs.as_str())
    }

    /// Goes on with the version that was found out by the initramfs.
    pub fn versioned(self, version: FormatVersion) -> (r: VersionedUki)
        ensures
            r.files() == self.files(),
            r.version() == version,
    {
        VersionedUki { files: self.files, version }
    }
}

impl VersionedUki {
    /// The files of the kernel.
    pub closed spec fn files(&self) -> KernelFiles {
        self.files
    }

    /// The version of the digest.
    pub closed spec fn version(&self) -> FormatVersion {
        self.version
    }

    /// Goes on when `ukify` is there. An initramfs that cannot be used is told of before, so that
    /// it is also where `ukify` is not installed yet.
    pub fn with_ukify(self, available: bool) -> (r: Result<ReadyUki, UkifyError>)
        ensures
            if available {
                r matches Ok(u) && u.files() == self.files() && u.version() == self.version()
            } else {
                r matches Err(UkifyError::NoUkify)
            },
    {
        if available {
            Ok(ReadyUki { files: self.files, version: self.version })
        } else {
            Err(UkifyError::NoUkify)
        }
    }
}

/// The kernel arguments for the digests of a root, given by their texts.
pub open spec fn digest_kargs(digests: RootDigests, allow_missing: bool) -> Seq<Seq<char>> {
    match digests {
        RootDigests::V1 { preferred, compatibility } => uki_kargs(
            lower_hex_text(preferred@),
            FormatVersion::V1,
            Some(lower_hex_text(compatibility@)),
            allow_missing,
        ),
        RootDigests::V2 { digest } => uki_kargs(
            lower_hex_text(digest@),
            FormatVersion::V2,
            None,
            allow_missing,
        ),
    }
}

/// Which digest of a root is none, if one is: the preferred one first.
pub open spec fn bad_digest(digests: RootDigests) -> Option<UkifyError> {
    match digests {
        RootDigests::V1 { preferred, compatibility } => if !is_digest_text(preferred@) {
            Some(UkifyError::BadDigest)
        } else if !is_digest_text(compatibility@) {
            Some(UkifyError::BadV2Digest)
        } else {
            None
        },
        RootDigests::V2 { digest } => if !is_digest_text(digest@) {
            Some(UkifyError::BadDigest)
        } else {
            None
        },
    }
}

/// The kernel arguments for the digests of a root.
pub fn kargs_of_digests(digests: &RootDigests, allow_missing: bool) -> (r: Result<
    Vec<String>,
    UkifyError,
>)
    ensures
        match bad_digest(*digests) {
            Some(e) => r == Err::<Vec<String>, UkifyError>(e),
            None => r matches Ok(v) && texts(v@) == digest_kargs(*digests, allow_missing),
        },
{
    match digests {
        RootDigests::V1 { preferred, compatibility } => {
            let p = match parse_digest(preferred) {
                Some(d) => d,
                None => return Err(UkifyError::BadDigest),
            };
            let c = match parse_digest(compatibility) {
                Some(d) => d,
                None => return Err(UkifyError::BadV2Digest),
            };
            Ok(composefs_kargs_for_uki(&p, FormatVersion::V1, Some(&c), allow_missing))
        },
        RootDigests::V2 { digest } => {
            let d = match parse_digest(digest) {
                Some(d) => d,
                None => return Err(UkifyError::BadDigest),
            };
            Ok(composefs_kargs_for_uki(&d, FormatVersion::V2, None, allow_missing))
        },
    }
}

/// The arguments of `ukify`, before those that are passed through.
pub open spec fn ukify_args(files: KernelFiles, cmdline: Seq<char>) -> Seq<Seq<char>> {
    seq![
        "build"@,
        "--linux"@,
        files.vmlinuz@,
        "--initrd"@,
        files.initramfs@,
        "--uname"@,
        files.version@,
        "--cmdline"@,
        cmdline,
        "--os-release"@,
        "@usr/lib/os-release"@,
    ]
}

impl ReadyUki {
    /// The files of the kernel.
    pub closed spec fn files(&self) -> KernelFiles {
        self.files
    }

    /// The version of the digest.
    pub closed spec fn version(&self) -> FormatVersion {
        self.version
    }

    /// The version of the preferred digest, and whether the legacy one is needed too.
    pub fn wanted_digests(&self) -> (r: (FormatVersion, bool))
        ensures
            r == (self.version(), self.version() == FormatVersion::V1),
    {
        match self.version {
            FormatVersion::V1 => (FormatVersion::V1, true),
            FormatVersion::V2 => (FormatVersion::V2, false),
        }
    }

    /// The arguments of `ukify`, before those that are passed through: the command line is that of
    /// the root, then the digests, then what the user adds.
    pub fn ukify_argv(
        &self,
        digests: &RootDigests,
        root_cmdline: &str,
        extra_kargs: &Vec<String>,
        allow_missing_fsverity: bool,
    ) -> (r: Result<Vec<String>, UkifyError>)
        requires
            digests is V1 <==> self.version() == FormatVersion::V1,
        ensures
            match bad_digest(*digests) {
                Some(e) => r == Err::<Vec<String>, UkifyError>(e),
                None => r matches Ok(v) && texts(v@) == ukify_args(
                    self.files(),
                    uki_cmdline(
                        root_cmdline@,
                        *digests,
                        texts(extra_kargs@),
                        allow_missing_fsverity,
                    ),
                ) && root_cmdline@.is_prefix_of(texts(v@)[8]),
            },
    {
        let mut kargs = match kargs_of_digests(digests, allow_missing_fsverity) {
            Ok(kargs) => kargs,
            Err(e) => return Err(e),
        };
        push_texts(&mut kargs, extra_kargs);
        let cmdline = build_cmdline(root_cmdline, &kargs);
        proof {
            let own = digest_kargs(*digests, allow_missing_fsverity);
            lemma_digest_kargs_are_params(*digests, allow_missing_fsverity);
            lemma_params_of_add(own, texts(extra_kargs@));
        }
        let mut argv = no_texts();
        push_text(&mut argv, "build");
        push_text(&mut argv, "--linux");
        push_text(&mut argv, self.files.vmlinuz.as_str());
        push_text(&mut argv, "--initrd");
        push_text(&mut argv, self.files.initramfs.as_str());
        push_text(&mut argv, "--uname");
        push_text(&mut argv, self.files.version.as_str());
        push_text(&mut argv, "--cmdline");
        push_text(&mut argv, cmdline.as_str());
        push_text(&mut argv, "--os-release");
        push_text(&mut argv, "@usr/lib/os-release");
        assert(texts(argv@) =~= ukify_args(self.files, cmdline@));
        Ok(argv)
    }
}

/// The command line of a UKI: what the root has, then the digests, then what the user adds; each
/// parameter where it is not there yet.
pub open spec fn uki_cmdline(
    root_cmdline: Seq<char>,
    digests: RootDigests,
    extra: Seq<Seq<char>>,
    allow_missing: bool,
) -> Seq<char> {
    with_params(root_cmdline, digest_kargs(digests, allow_missing) + params_of(extra))
}

/// Whether a text holds neither white space nor quotes.
spec fn is_bare(s: Seq<char>) -> bool {
    forall|i: int| 0 <= i < s.len() ==> s[i] != '"' && !Class::AsciiWhite.has(#[trigger] s[i])
}

/// A text without quotes has none that is open.
proof fn lemma_bare_is_closed(s: Seq<char>)
    requires
        is_bare(s),
    ensures
        is_closed(s),
    decreases s.len(),
{
    if s.len() > 0 {
        let rest = s.drop_last();
        assert forall|i: int| 0 <= i < rest.len() implies rest[i] != '"' && !Class::AsciiWhite.has(
            #[trigger] rest[i],
        ) by {
            assert(rest[i] == s[i]);
        }
        lemma_bare_is_closed(rest);
        assert(!Class::AsciiWhite.has(s[s.len() - 1]));
    }
}

/// A digest in lower case holds neither white space nor quotes.
proof fn lemma_hex_is_bare(hex: Seq<char>)
    requires
        is_digest_text(hex),
    ensures
        is_bare(lower_hex_text(hex)),
{
    let lower = lower_hex_text(hex);
    assert forall|i: int| 0 <= i < lower.len() implies lower[i] != '"' && !Class::AsciiWhite.has(
        #[trigger] lower[i],
    ) by {
        assert(is_hex_digit(hex[i]));
    }
}

/// The kernel argument for a digest is one parameter.
proof fn lemma_composefs_karg_is_param(hex: Seq<char>, version: FormatVersion, allow_missing: bool)
    requires
        is_bare(hex),
    ensures
        is_param(composefs_karg(hex, version, allow_missing)),
        is_closed(composefs_karg(hex, version, allow_missing)),
{
    reveal_strlit("?");
    reveal_strlit("");
    reveal_strlit("composefs.digest=");
    reveal_strlit("v1-sha512-12:");
    reveal_strlit("composefs=");
    let karg = composefs_karg(hex, version, allow_missing);
    let head = karg.take(karg.len() - hex.len());
    assert(karg =~= head + hex);
    assert forall|i: int| 0 <= i < karg.len() implies karg[i] != '"' && !Class::AsciiWhite.has(
        #[trigger] karg[i],
    ) by {
        if i >= head.len() {
            assert(karg[i] == hex[i - head.len()]);
        }
    }
    lemma_bare_is_closed(karg);
    lemma_unspaced_is_param(karg);
}

/// The kernel arguments for the digests of a root are one parameter each.
proof fn lemma_digest_kargs_are_params(digests: RootDigests, allow_missing: bool)
    ensures
        bad_digest(digests) is None ==> {
            let kargs = digest_kargs(digests, allow_missing);
            &&& forall|i: int| 0 <= i < kargs.len() ==> is_param(#[trigger] kargs[i])
            &&& forall|i: int| 0 <= i < kargs.len() ==> is_closed(#[trigger] kargs[i])
            &&& params_of(kargs) == kargs
        },
{
    if bad_digest(digests) is None {
        let kargs = digest_kargs(digests, allow_missing);
        match digests {
            RootDigests::V1 { preferred, compatibility } => {
                let first = lower_hex_text(preferred@);
                let second = lower_hex_text(compatibility@);
                lemma_hex_is_bare(preferred@);
                lemma_hex_is_bare(compatibility@);
                lemma_composefs_karg_is_param(first, FormatVersion::V1, allow_missing);
                lemma_composefs_karg_is_param(second, FormatVersion::V2, allow_missing);
            },
            RootDigests::V2 { digest } => {
                let only = lower_hex_text(digest@);
                lemma_hex_is_bare(digest@);
                lemma_composefs_karg_is_param(only, FormatVersion::V2, allow_missing);
            },
        }
        lemma_params_are_their_own(kargs);
    }
}

/// Every digest of a UKI is on its command line, whatever the user adds, if the root's command line
/// leaves no quote open. So is every parameter that the user adds, up to the first that leaves a
/// quote open.
pub proof fn law_digests_are_on_the_command_line(
    root_cmdline: Seq<char>,
    digests: RootDigests,
    extra: Seq<Seq<char>>,
    allow_missing: bool,
)
    requires
        bad_digest(digests) is None,
        is_closed(root_cmdline),
    ensures
        forall|i: int|
            0 <= i < digest_kargs(digests, allow_missing).len() ==> has_param(
                uki_cmdline(root_cmdline, digests, extra, allow_missing),
                #[trigger] digest_kargs(digests, allow_missing)[i],
            ),
        forall|i: int|
            0 <= i < params_of(extra).len() && (forall|j: int|
                0 <= j <= i ==> is_closed(#[trigger] params_of(extra)[j])) ==> has_param(
                uki_cmdline(root_cmdline, digests, extra, allow_missing),
                #[trigger] params_of(extra)[i],
            ),
{
    let own = digest_kargs(digests, allow_missing);
    let added = params_of(extra);
    let all = own + added;
    lemma_digest_kargs_are_params(digests, allow_missing);
    lemma_params_of_are_params(extra);
    assert forall|i: int| 0 <= i < own.len() implies has_param(
        uki_cmdline(root_cmdline, digests, extra, allow_missing),
        #[trigger] own[i],
    ) by {
        assert forall|j: int| 0 <= j <= i implies is_closed(#[trigger] all[j]) by {
            assert(all[j] == own[j]);
        }
        assert(is_closed(all[i]));
        assert(is_param(own[i]));
        law_params_are_there(root_cmdline, all, i);
    }
    assert forall|i: int|
        0 <= i < added.len() && (forall|j: int| 0 <= j <= i ==> is_closed(#[trigger] added[j])) implies has_param(
        uki_cmdline(root_cmdline, digests, extra, allow_missing),
        #[trigger] added[i],
    ) by {
        let at = own.len() + i;
        assert forall|j: int| 0 <= j <= at implies is_closed(#[trigger] all[j]) by {
            if j < own.len() {
                assert(all[j] == own[j]);
            } else {
                assert(all[j] == added[j - own.len()]);
            }
        }
        assert(is_closed(all[at]));
        assert(is_param(added[i]));
        law_params_are_there(root_cmdline, all, at);
    }
}

/// A UKI of the first version carries two digests, the second of them as older clients expect it;
/// one of the second version carries one.
pub proof fn law_v1_carries_the_legacy_digest(digests: RootDigests, allow_missing: bool)
    ensures
        digests is V1 ==> digest_kargs(digests, allow_missing).len() == 2
            && digest_kargs(digests, allow_missing)[1] == composefs_karg(
            lower_hex_text(digests->compatibility@),
            FormatVersion::V2,
            allow_missing,
        ),
        digests is V2 ==> digest_kargs(digests, allow_missing).len() == 1,
{
}

/// The kernel arguments for digests, letter by letter: with the question mark exactly if files may
/// lack fs-verity, in each of the arguments, and with the digest in lower case.
pub proof fn law_digest_arguments(digests: RootDigests, allow_missing: bool)
    ensures
        match digests {
            RootDigests::V1 { preferred, compatibility } => digest_kargs(digests, allow_missing)
                == if allow_missing {
                seq![
                    "composefs.digest=?v1-sha512-12:"@ + lower_hex_text(preferred@),
                    "composefs=?"@ + lower_hex_text(compatibility@),
                ]
            } else {
                seq![
                    "composefs.digest=v1-sha512-12:"@ + lower_hex_text(preferred@),
                    "composefs="@ + lower_hex_text(compatibility@),
                ]
            },
            RootDigests::V2 { digest } => digest_kargs(digests, allow_missing)
                == if allow_missing {
                seq!["composefs=?"@ + lower_hex_text(digest@)]
            } else {
                seq!["composefs="@ + lower_hex_text(digest@)]
            },
        },
{
    reveal_strlit("?");
    reveal_strlit("");
    reveal_strlit("composefs.digest=");
    reveal_strlit("composefs.digest=?v1-sha512-12:");
    reveal_strlit("composefs.digest=v1-sha512-12:");
    reveal_strlit("v1-sha512-12:");
    reveal_strlit("composefs=");
    reveal_strlit("composefs=?");
    let kargs = digest_kargs(digests, allow_missing);
    match digests {
        RootDigests::V1 { preferred, compatibility } => {
            let p = lower_hex_text(preferred@);
            let c = lower_hex_text(compatibility@);
            if allow_missing {
                assert(kargs[0] =~= "composefs.digest=?v1-sha512-12:"@ + p);
                assert(kargs[1] =~= "composefs=?"@ + c);
                assert(kargs =~= seq![
                    "composefs.digest=?v1-sha512-12:"@ + p,
                    "composefs=?"@ + c,
                ]);
            } else {
                assert(kargs[0] =~= "composefs.digest=v1-sha512-12:"@ + p);
                assert(kargs[1] =~= "composefs="@ + c);
                assert(kargs =~= seq!["composefs.digest=v1-sha512-12:"@ + p, "composefs="@ + c]);
            }
        },
        RootDigests::V2 { digest } => {
            let d = lower_hex_text(digest@);
            if allow_missing {
                assert(kargs[0] =~= "composefs=?"@ + d);
                assert(kargs =~= seq!["composefs=?"@ + d]);
            } else {
                assert(kargs[0] =~= "composefs="@ + d);
                assert(kargs =~= seq!["composefs="@ + d]);
            }
        },
    }
}

/// A digest in lower case is as long as before, and only the capitals change, each to the letter
/// that it is the capital of.
pub proof fn law_digest_in_lower_case(hex: Seq<char>, i: int)
    requires
        is_digest_text(hex),
        0 <= i < hex.len(),
    ensures
        lower_hex_text(hex).len() == 128,
        hex[i] as int <= 'F' as int && hex[i] as int >= 'A' as int ==> lower_hex_text(hex)[i] as int
            == hex[i] as int + 32,
        !('A' <= hex[i] && hex[i] <= 'F') ==> lower_hex_text(hex)[i] == hex[i],
        ('0' <= lower_hex_text(hex)[i] && lower_hex_text(hex)[i] <= '9') || ('a'
            <= lower_hex_text(hex)[i] && lower_hex_text(hex)[i] <= 'f'),
{
    assert(is_hex_digit(hex[i]));
    let c = hex[i];
    if 'A' <= c && c <= 'F' {
        assert(c as int >= 65 && c as int <= 70);
        assert(c == 'A' || c == 'B' || c == 'C' || c == 'D' || c == 'E' || c == 'F');
    }
}

/// A digest is told by 128 hexadecimal digits, and one that is not makes the build fail, the
/// preferred one first.
pub proof fn law_bad_digests_are_told(digests: RootDigests)
    ensures
        match digests {
            RootDigests::V1 { preferred, compatibility } => {
                &&& preferred@.len() != 128 ==> bad_digest(digests) == Some(UkifyError::BadDigest)
                &&& bad_digest(digests) is None ==> preferred@.len() == 128 && compatibility@.len()
                    == 128
                &&& bad_digest(digests) == Some(UkifyError::BadV2Digest) ==> preferred@.len()
                    == 128
                &&& bad_digest(RootDigests::V2 { digest: preferred }) is None
                    && compatibility@.len() != 128 ==> bad_digest(digests) == Some(
                    UkifyError::BadV2Digest,
                )
                &&& bad_digest(RootDigests::V2 { digest: preferred }) is None && bad_digest(
                    RootDigests::V2 { digest: compatibility },
                ) is None ==> bad_digest(digests) is None
            },
            RootDigests::V2 { digest } => bad_digest(digests) is None <==> digest@.len() == 128
                && forall|i: int|
                0 <= i < digest@.len() ==> ('0' <= #[trigger] digest@[i] && digest@[i] <= '9') || (
                'a' <= digest@[i] && digest@[i] <= 'f') || ('A' <= digest@[i] && digest@[i] <= 'F'),
        },
{
    match digests {
        RootDigests::V2 { digest } => {
            assert forall|i: int| 0 <= i < digest@.len() implies is_hex_digit(
                #[trigger] digest@[i],
            ) == (('0' <= digest@[i] && digest@[i] <= '9') || ('a' <= digest@[i] && digest@[i]
                <= 'f') || ('A' <= digest@[i] && digest@[i] <= 'F')) by {}
        },
        _ => {},
    }
}

/// What is handed to `ukify`: each option is followed by its own value, and the command line is one
/// argument.
pub proof fn law_ukify_options(files: KernelFiles, cmdline: Seq<char>)
    ensures
        ({
            let args = ukify_args(files, cmdline);
            &&& args.len() == 11
            &&& args[0] == "build"@
            &&& args[1] == "--linux"@ && args[2] == files.vmlinuz@
            &&& args[3] == "--initrd"@ && args[4] == files.initramfs@
            &&& args[5] == "--uname"@ && args[6] == files.version@
            &&& args[7] == "--cmdline"@ && args[8] == cmdline
            &&& args[9] == "--os-release"@ && args[10] == "@usr/lib/os-release"@
        }),
{
}

/// What an initramfs says settles the version: its marker, letter by letter, gives the first; none,
/// neither read nor listed, the second, unless the first was asked for; anything else is refused.
pub proof fn law_marker_settles_the_version(
    r: Result<FormatVersion, ResolveError>,
    requested: Option<ErofsVersionArg>,
    initramfs: Seq<char>,
    listing: Seq<u8>,
    content: Seq<u8>,
)
    requires
        is_choice(r, requested, initramfs, marker(listing, content)),
    ensures
        ({
            let text = vstd::utf8::encode_utf8("composefs-digest-v1 state-v1\n"@);
            let path = vstd::utf8::encode_utf8(
                "/usr/lib/bootc/initramfs-features/composefs-digest-v1"@,
            );
            let listed = exists|a: Seq<u8>, b: Seq<u8>| listing == #[trigger] (a + path + b);
            &&& content == text ==> r == Ok::<_, ResolveError>(FormatVersion::V1)
            &&& content != text && (content.len() > 0 || listed) ==> (r matches Err(
                ResolveError::UnexpectedMarker(p),
            ) && p@ == initramfs)
            &&& content != text && content.len() == 0 && !listed ==> match requested {
                Some(ErofsVersionArg::V1) => r matches Err(ResolveError::Unsupported),
                _ => r == Ok::<_, ResolveError>(FormatVersion::V2),
            }
        }),
{
    let path = vstd::utf8::encode_utf8("/usr/lib/bootc/initramfs-features/composefs-digest-v1"@);
    let listed = exists|a: Seq<u8>, b: Seq<u8>| listing == #[trigger] (a + path + b);
    if listed {
        let (a, b) = choose|a: Seq<u8>, b: Seq<u8>| listing == #[trigger] (a + path + b);
        assert(listing.subrange(a.len() as int, a.len() + path.len() as int) =~= path);
    }
    if holds_bytes(listing, path) {
        let i = choose|i: int|
            0 <= i && i + path.len() <= listing.len() && #[trigger] listing.subrange(
                i,
                i + path.len(),
            ) == path;
        let a = listing.take(i);
        let b = listing.skip(i + path.len());
        assert(listing =~= a + path + b);
    }
}

/// The initramfs is listed by its path alone, and its marker is printed by the path of the marker; an
/// initramfs that cannot be listed is told of with what `lsinitrd` says, without the white space around
/// it, and one for which it cannot be run with the cause.
pub proof fn law_initramfs_is_probed(
    r: Result<FormatVersion, ResolveError>,
    initramfs: Seq<char>,
    archive: Result<ProbeOutput, ProbeError>,
)
    requires
        follows_archive(r, initramfs, archive),
    ensures
        archive_args(initramfs) == seq![initramfs],
        feature_args(initramfs) == seq![
            "--file"@,
            "/usr/lib/bootc/initramfs-features/composefs-digest-v1"@,
            initramfs,
        ],
        archive matches Ok(a) ==> !a.success && (r matches Err(ResolveError::Unreadable(p, why))
            && p@ == initramfs && forall|before: Seq<char>, text: Seq<char>, after: Seq<char>|
            lossy(a.stderr@) == #[trigger] (before + text + after) && is_blank(before) && is_blank(
                after,
            ) && text.len() > 0 && is_printable_ascii(text[0]) && is_printable_ascii(text.last())
                ==> why@ == text),
        archive matches Err(e) ==> (r matches Err(ResolveError::Archive(p, cause)) && p@ == initramfs
            && cause == e),
{
    if archive is Ok {
        let said = lossy(archive->Ok_0.stderr@);
        assert forall|before: Seq<char>, text: Seq<char>, after: Seq<char>|
            said == #[trigger] (before + text + after) && is_blank(before) && is_blank(after)
                && text.len() > 0 && is_printable_ascii(text[0]) && is_printable_ascii(
                text.last(),
            ) implies trim(said) == text by {
            law_trim(before, text, after);
        }
    }
}

/// What is told of a UKI that cannot be built.
pub proof fn law_ukify_messages(path: String, cause: ProbeError, why: String)
    ensures
        UkifyError::NoKernel(path).text() == "No kernel found in "@ + path@,
        UkifyError::AlreadyUki(path).text() == "Cannot build UKI: rootfs already contains a UKI at "@ + path@,
        UkifyError::KernelMissing(path).text() == "Kernel not found at "@ + path@,
        UkifyError::InitramfsMissing(path).text() == "Initramfs not found at "@ + path@,
        UkifyError::NoUkify.text() == "ukify executable not found in PATH. Please install systemd-ukify or equivalent."@,
        UkifyError::BadDigest.text() == "Parsing computed composefs digest"@,
        UkifyError::BadV2Digest.text() == "Parsing computed V2 digest"@,
        ResolveError::Archive(path, cause).text() == "Validating initramfs "@ + path@,
        ResolveError::Unreadable(path, why).text() == "Validating initramfs "@ + path@ + " failed: lsinitrd could not read the archive: "@ + why@,
        ResolveError::Feature(path, cause).text() == "Reading composefs capability from initramfs "@ + path@,
        ResolveError::UnexpectedMarker(path).text() == "Initramfs "@ + path@ + " has an unexpected composefs V1 capability marker; rebuild its initramfs"@,
        ResolveError::Unsupported.text() == "--erofs-version=v1 requires an initramfs with composefs V1 support; rebuild the initramfs with current bootc or use --erofs-version=v2"@,
{
}

/// What was read of the marker settles the version that was asked for; where it could not be read, that
/// is told with its cause.
pub proof fn law_feature_settles_the_version(
    r: Result<FormatVersion, ResolveError>,
    requested: Option<ErofsVersionArg>,
    initramfs: Seq<char>,
    archive: ProbeOutput,
    feature: Result<ProbeOutput, ProbeError>,
)
    requires
        follows_feature(r, requested, initramfs, archive, feature),
    ensures
        feature matches Err(e) ==> (r matches Err(ResolveError::Feature(p, cause)) && p@ == initramfs
            && cause == e),
        feature matches Ok(f) ==> {
            let text = vstd::utf8::encode_utf8("composefs-digest-v1 state-v1\n"@);
            &&& f.stdout@ == text ==> r == Ok::<_, ResolveError>(FormatVersion::V1)
            &&& f.stdout@ != text && f.stdout@.len() > 0 ==> r is Err
            &&& f.stdout@ != text && r is Ok ==> r == Ok::<_, ResolveError>(FormatVersion::V2)
                && requested != Some(ErofsVersionArg::V1)
            &&& f.stdout@ != text && f.stdout@.len() == 0 && archive.stdout@.len() == 0 && requested
                != Some(ErofsVersionArg::V1) ==> r == Ok::<_, ResolveError>(FormatVersion::V2)
            &&& f.stdout@ != text && f.stdout@.len() == 0 && archive.stdout@.len() == 0 && requested
                == Some(ErofsVersionArg::V1) ==> r is Err
        },
{
    let path = vstd::utf8::encode_utf8("/usr/lib/bootc/initramfs-features/composefs-digest-v1"@);
    reveal_strlit("/usr/lib/bootc/initramfs-features/composefs-digest-v1");
    vstd::utf8::encode_utf8_first_scalar("/usr/lib/bootc/initramfs-features/composefs-digest-v1"@);
    if feature is Ok {
        let f = feature->Ok_0;
        law_marker_settles_the_version(r, requested, initramfs, archive.stdout@, f.stdout@);
        if exists|a: Seq<u8>, b: Seq<u8>| archive.stdout@ == #[trigger] (a + path + b) {
            let (a, b) = choose|a: Seq<u8>, b: Seq<u8>|
                archive.stdout@ == #[trigger] (a + path + b);
            assert((a + path + b).len() >= path.len());
        }
    }
}

/// A build goes on only with a kernel whose files are both there, and with `ukify`; what is missing is
/// told, the kernel before its initramfs. An initramfs is looked up in the root unless its path is
/// absolute, and the legacy digest is wanted exactly for the first version.
pub proof fn law_build_steps(
    files: KernelFiles,
    vmlinuz: bool,
    initramfs: bool,
    checked: Result<CheckedKernel, UkifyError>,
    versioned: VersionedUki,
    available: bool,
    ready: Result<ReadyUki, UkifyError>,
    uki: &ReadyUki,
    wanted: (FormatVersion, bool),
)
    requires
        call_ensures(KernelFiles::checked, (files, vmlinuz, initramfs), checked),
        call_ensures(VersionedUki::with_ukify, (versioned, available), ready),
        call_ensures(ReadyUki::wanted_digests, (uki,), wanted),
    ensures
        checked is Ok <==> vmlinuz && initramfs,
        !vmlinuz ==> (checked matches Err(UkifyError::KernelMissing(p)) && p@ == files.vmlinuz@),
        vmlinuz && !initramfs ==> (checked matches Err(UkifyError::InitramfsMissing(p)) && p@
            == files.initramfs@),
        checked matches Ok(k) ==> k.files() == files,
        ready is Ok <==> available,
        ready matches Err(e) ==> e is NoUkify,
        ready matches Ok(u) ==> u.files() == versioned.files() && u.version()
            == versioned.version(),
        wanted.0 == uki.version(),
        wanted.1 <==> uki.version() == FormatVersion::V1,
{
}

/// The initramfs of a kernel as it is seen from outside of the root.
pub proof fn law_archive_path(kernel: &CheckedKernel, rootfs: &str, r: String)
    requires
        call_ensures(CheckedKernel::archive, (kernel, rootfs), r),
        rootfs@.len() > 0,
        rootfs@.last() != '/',
        kernel.files().initramfs@.len() > 0,
    ensures
        kernel.files().initramfs@[0] == '/' ==> r@ == kernel.files().initramfs@,
        kernel.files().initramfs@[0] != '/' ==> r@ == rootfs@ + seq!['/']
            + kernel.files().initramfs@,
{
    let path = kernel.files().initramfs@;
    law_joined_path(rootfs@, path);
    assert(rootfs@.push('/') + path =~= rootfs@ + seq!['/'] + path);
}

/// A kernel is taken by its own files and version; a root without one, and one that has a UKI already,
/// are refused.
pub proof fn law_selected_kernels(kernel: Option<&Kernel>, rootfs: &str, r: Result<KernelFiles, UkifyError>)
    requires
        call_ensures(select_kernel, (kernel, rootfs), r),
    ensures
        kernel is None ==> (r matches Err(UkifyError::NoKernel(p)) && p@ == rootfs@),
        kernel matches Some(k) ==> (k.k_type matches KernelType::Uki { path } ==> (r matches Err(
            UkifyError::AlreadyUki(p),
        ) && p@ == path@)),
        kernel matches Some(k) ==> (k.k_type matches KernelType::Vmlinuz { path, initramfs } ==> (
        r matches Ok(f) && f.vmlinuz@ == path@ && f.initramfs@ == initramfs@ && f.version@
            == k.version@)),
{
}

/// The arguments of `ukify` for a build: its command line is the root's with the digests and the user's
/// additions behind it, and its options have the values of the kernel.
pub proof fn law_build_arguments(
    uki: &ReadyUki,
    digests: &RootDigests,
    root_cmdline: &str,
    extra: &Vec<String>,
    allow_missing: bool,
    r: Result<Vec<String>, UkifyError>,
)
    requires
        call_ensures(ReadyUki::ukify_argv, (uki, digests, root_cmdline, extra, allow_missing), r),
        bad_digest(*digests) is None,
    ensures
        r matches Ok(v) && {
            let args = texts(v@);
            &&& args.len() == 11
            &&& args[1] == "--linux"@ && args[2] == uki.files().vmlinuz@
            &&& args[3] == "--initrd"@ && args[4] == uki.files().initramfs@
            &&& args[5] == "--uname"@ && args[6] == uki.files().version@
            &&& args[7] == "--cmdline"@
            &&& root_cmdline@.is_prefix_of(args[8])
            &&& is_closed(root_cmdline@) ==> forall|i: int|
                0 <= i < digest_kargs(*digests, allow_missing).len() ==> has_param(
                    args[8],
                    #[trigger] digest_kargs(*digests, allow_missing)[i],
                )
        },
{
    law_ukify_options(
        uki.files(),
        uki_cmdline(root_cmdline@, *digests, texts(extra@), allow_missing),
    );
    if is_closed(root_cmdline@) {
        law_digests_are_on_the_command_line(
            root_cmdline@,
            *digests,
            texts(extra@),
            allow_missing,
        );
    }
}

} // verus!
