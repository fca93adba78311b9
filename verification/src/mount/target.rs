//! What may be mounted where.

use vstd::prelude::*;

use crate::mount::record::{ETC, VAR};
use crate::paths::{
    component_specs, components, components_of, is_absolute, join_path, joined_path,
    law_joined_names_stay_below, law_joined_path, only_names, path_starts_with, starts_with,
    Component, ComponentSpec,
};
use crate::text::{
    begins_with, chars_of, concat2, is_hex_digit, no_texts, opt_str, push_text, texts,
};

verus! {

// ---------------------------------------------------------------------------
// The mount target
// ---------------------------------------------------------------------------

/// What is at the path of a mount target.
#[derive(Debug, Clone, Copy, PartialEq, Eq, Structural)]
pub enum TargetKind {
    /// It cannot be found out.
    Unreadable,
    /// Something else than a directory, or a link to one.
    NotADirectory,
    /// A directory that cannot be listed.
    Unlistable,
    NotEmpty,
    Empty,
}

/// What keeps something from being mounted at a target.
#[derive(Debug, Clone, Copy, PartialEq, Eq, Structural)]
pub enum TargetError {
    SysrootNotAbsolute,
    TargetNotAbsolute,
    Unreadable,
    NotADirectory,
    Unlistable,
    NotEmpty,
    SysrootUnresolved,
    TargetUnresolved,
    Overlap,
}

impl TargetError {
    /// The text of the error, for the given sysroot and target.
    pub open spec fn text(self, sysroot: Seq<char>, target: Seq<char>) -> Seq<char> {
        match self {
            TargetError::SysrootNotAbsolute => "--sysroot must be absolute"@,
            TargetError::TargetNotAbsolute => "mount target must be absolute"@,
            TargetError::Unreadable => "Opening mount target "@ + target,
            TargetError::NotADirectory => "mount target must be a real directory: "@ + target,
            TargetError::Unlistable => "Reading mount target "@ + target,
            TargetError::NotEmpty => "mount target must be an existing empty directory: "@
                + target,
            TargetError::SysrootUnresolved => "Resolving sysroot "@ + sysroot,
            TargetError::TargetUnresolved => "Resolving mount target "@ + target,
            TargetError::Overlap => "sysroot and mount target must not overlap"@,
        }
    }

    /// The text of the error, for the given sysroot and target.
    pub fn message(self, sysroot: &str, target: &str) -> (r: String)
        ensures
            r@ == self.text(sysroot@, target@),
    {
        match self {
            TargetError::SysrootNotAbsolute => "--sysroot must be absolute".to_string(),
            TargetError::TargetNotAbsolute => "mount target must be absolute".to_string(),
            TargetError::Unreadable => concat2("Opening mount target ", target),
            TargetError::NotADirectory => concat2("mount target must be a real directory: ", target),
            TargetError::Unlistable => concat2("Reading mount target ", target),
            TargetError::NotEmpty => concat2(
                "mount target must be an existing empty directory: ",
                target,
            ),
            TargetError::SysrootUnresolved => concat2("Resolving sysroot ", sysroot),
            TargetError::TargetUnresolved => concat2("Resolving mount target ", target),
            TargetError::Overlap => "sysroot and mount target must not overlap".to_string(),
        }
    }
}

/// What keeps something from being mounted at a target, if anything does. The real paths
/// are those without links; `None` stands for a path that has none.
pub open spec fn target_error(
    sysroot: Seq<char>,
    target: Seq<char>,
    kind: TargetKind,
    real_sysroot: Option<Seq<char>>,
    real_target: Option<Seq<char>>,
) -> Option<TargetError> {
    if !is_absolute(sysroot) {
        Some(TargetError::SysrootNotAbsolute)
    } else if !is_absolute(target) {
        Some(TargetError::TargetNotAbsolute)
    } else {
        match kind {
            TargetKind::Unreadable => Some(TargetError::Unreadable),
            TargetKind::NotADirectory => Some(TargetError::NotADirectory),
            TargetKind::Unlistable => Some(TargetError::Unlistable),
            TargetKind::NotEmpty => Some(TargetError::NotEmpty),
            TargetKind::Empty => match (real_sysroot, real_target) {
                (None, _) => Some(TargetError::SysrootUnresolved),
                (Some(_), None) => Some(TargetError::TargetUnresolved),
                (Some(s), Some(t)) => if starts_with(t, s) || starts_with(s, t) {
                    Some(TargetError::Overlap)
                } else {
                    None
                },
            },
        }
    }
}

/// Whether something may be mounted at a target, judged before anything is.
pub fn validate_mount_target(
    sysroot: &str,
    target: &str,
    kind: TargetKind,
    real_sysroot: Option<&str>,
    real_target: Option<&str>,
) -> (r: Result<(), TargetError>)
    ensures
        r == (match target_error(
            sysroot@,
            target@,
            kind,
            opt_str(real_sysroot),
            opt_str(real_target),
        ) {
            Some(e) => Err(e),
            None => Ok::<(), TargetError>(()),
        }),
{
    if !begins_with(sysroot, "/") {
        return Err(TargetError::SysrootNotAbsolute);
    }
    if !begins_with(target, "/") {
        return Err(TargetError::TargetNotAbsolute);
    }
    match kind {
        TargetKind::Unreadable => Err(TargetError::Unreadable),
        TargetKind::NotADirectory => Err(TargetError::NotADirectory),
        TargetKind::Unlistable => Err(TargetError::Unlistable),
        TargetKind::NotEmpty => Err(TargetError::NotEmpty),
        TargetKind::Empty => {
            let s = match real_sysroot {
                Some(s) => s,
                None => return Err(TargetError::SysrootUnresolved),
            };
            let t = match real_target {
                Some(t) => t,
                None => return Err(TargetError::TargetUnresolved),
            };
            if path_starts_with(t, s) || path_starts_with(s, t) {
                Err(TargetError::Overlap)
            } else {
                Ok(())
            }
        },
    }
}

/// Whether a target may be one that was mounted: it has to be absolute.
pub fn validate_unmount_target(target: &str) -> (r: Result<(), TargetError>)
    ensures
        r == (if is_absolute(target@) {
            Ok(())
        } else {
            Err::<(), TargetError>(TargetError::TargetNotAbsolute)
        }),
{
    if begins_with(target, "/") {
        Ok(())
    } else {
        Err(TargetError::TargetNotAbsolute)
    }
}

/// A target that is accepted neither is the sysroot nor lies in it nor holds it.
pub proof fn law_accepted_target_does_not_overlap(
    sysroot: Seq<char>,
    target: Seq<char>,
    kind: TargetKind,
    real_sysroot: Seq<char>,
    real_target: Seq<char>,
    names: Seq<char>,
)
    requires
        target_error(sysroot, target, kind, Some(real_sysroot), Some(real_target)) is None,
        only_names(names),
    ensures
        components(real_target) != components(real_sysroot),
        components(real_target) != components(joined_path(real_sysroot, names)),
        components(real_sysroot) != components(joined_path(real_target, names)),
{
    law_joined_names_stay_below(real_sysroot, names);
    law_joined_names_stay_below(real_target, names);
    assert(components(real_sysroot).is_prefix_of(components(real_sysroot))) by {
        let c = components(real_sysroot);
        assert(c.subrange(0, c.len() as int) =~= c);
    }
}

// ---------------------------------------------------------------------------
// Paths below the sysroot
// ---------------------------------------------------------------------------

/// What is wrong with a path that should lie below the sysroot.
#[derive(Debug, Clone, Copy, PartialEq, Eq, Structural)]
pub enum RelativeError {
    Absolute,
    Empty,
    NotNormal,
}

impl RelativeError {
    /// The text of the error.
    pub open spec fn text(self) -> Seq<char> {
        match self {
            RelativeError::Absolute => "path must be relative to the sysroot"@,
            RelativeError::Empty => "path must not be empty"@,
            RelativeError::NotNormal => "path must contain only normal components"@,
        }
    }

    /// The text of the error.
    pub fn message(self) -> (r: &'static str)
        ensures
            r@ == self.text(),
    {
        match self {
            RelativeError::Absolute => "path must be relative to the sysroot",
            RelativeError::Empty => "path must not be empty",
            RelativeError::NotNormal => "path must contain only normal components",
        }
    }
}

/// What is wrong with a path that should lie below the sysroot, if anything is.
pub open spec fn relative_error(path: Seq<char>) -> Option<RelativeError> {
    if is_absolute(path) {
        Some(RelativeError::Absolute)
    } else if path.len() == 0 {
        Some(RelativeError::Empty)
    } else if !only_names(path) {
        Some(RelativeError::NotNormal)
    } else {
        None
    }
}

/// The names with which a path begins, before the first component that is none.
pub open spec fn leading_names(c: Seq<ComponentSpec>) -> Seq<Seq<char>>
    decreases c.len(),
{
    if c.len() == 0 {
        seq![]
    } else {
        match c[0] {
            ComponentSpec::Normal(name) => seq![name] + leading_names(c.drop_first()),
            _ => seq![],
        }
    }
}

/// The directories that are opened one in the other to open a path without following links,
/// and whether that is the whole path: it stops before a component that is no name.
pub fn nofollow_steps(path: &str) -> (r: (Vec<String>, bool))
    ensures
        texts(r.0@) == leading_names(components(path@)),
        r.1 == only_names(path@),
{
    let c = components_of(path);
    let ghost all = components(path@);
    assert(all.len() == c@.len());
    let mut names = no_texts();
    let mut i: usize = 0;
    assert(all.skip(0) =~= all);
    assert(texts(names@) + leading_names(all) =~= leading_names(all));
    while i < c.len()
        invariant
            i <= c@.len(),
            all == components(path@),
            component_specs(c@) == all,
            all.len() == c@.len(),
            forall|j: int| 0 <= j < i ==> #[trigger] all[j] is Normal,
            texts(names@) + leading_names(all.skip(i as int)) == leading_names(all),
        decreases c@.len() - i,
    {
        assert(all[i as int] == c@[i as int]@);
        assert(all.skip(i as int)[0] == all[i as int]);
        assert(all.skip(i as int).drop_first() =~= all.skip(i + 1));
        match &c[i] {
            Component::Normal(name) => {
                let ghost before = texts(names@);
                push_text(&mut names, name.as_str());
                assert(texts(names@) + leading_names(all.skip(i + 1)) =~= before + leading_names(
                    all.skip(i as int),
                ));
            },
            _ => {
                assert(texts(names@) + seq![] =~= texts(names@));
                return (names, false);
            },
        }
        i = i + 1;
    }
    assert(texts(names@) + leading_names(all.skip(i as int)) =~= texts(names@));
    (names, true)
}

/// Whether a path lies below the sysroot, by its names alone.
pub fn validate_relative_mount_path(path: &str) -> (r: Result<(), RelativeError>)
    ensures
        r == (match relative_error(path@) {
            Some(e) => Err(e),
            None => Ok::<(), RelativeError>(()),
        }),
{
    if begins_with(path, "/") {
        return Err(RelativeError::Absolute);
    }
    if path.is_empty() {
        return Err(RelativeError::Empty);
    }
    let (_, normal) = nofollow_steps(path);
    if normal {
        Ok(())
    } else {
        Err(RelativeError::NotNormal)
    }
}

/// A path that is accepted leads below whatever directory it is opened in.
pub proof fn law_accepted_path_stays_below(sysroot: Seq<char>, path: Seq<char>)
    requires
        relative_error(path) is None,
    ensures
        starts_with(joined_path(sysroot, path), sysroot),
        components(joined_path(sysroot, path)) == components(sysroot) + components(path),
{
    law_joined_names_stay_below(sysroot, path);
}

/// A path that is accepted is opened by its names, all of them.
pub proof fn law_accepted_path_is_opened_whole(path: Seq<char>)
    requires
        relative_error(path) is None,
    ensures
        leading_names(components(path)).len() == components(path).len(),
{
    lemma_leading_names(components(path));
}

/// Components that are all names are led by all of them.
proof fn lemma_leading_names(c: Seq<ComponentSpec>)
    requires
        forall|i: int| 0 <= i < c.len() ==> #[trigger] c[i] is Normal,
    ensures
        leading_names(c).len() == c.len(),
    decreases c.len(),
{
    if c.len() > 0 {
        let d = c.drop_first();
        assert forall|i: int| 0 <= i < d.len() implies #[trigger] d[i] is Normal by {
            assert(d[i] == c[i + 1]);
        }
        lemma_leading_names(d);
        assert(c[0] is Normal);
    }
}

// ---------------------------------------------------------------------------
// The deployment
// ---------------------------------------------------------------------------

/// How a sysroot keeps its deployments.
#[derive(Debug, Clone, Copy, PartialEq, Eq, Structural)]
pub enum Backend {
    Ostree,
    Composefs,
}

/// What keeps a deployment from being selected.
#[derive(Debug, Clone, Copy, PartialEq, Eq, Structural)]
pub enum SelectionError {
    AmbiguousBackend,
    NotASysroot,
    NotOneDeployment(Backend),
    /// The path of the deployment does not lie below the sysroot.
    DeploymentPath(RelativeError),
    /// The path of the state does not lie below the sysroot.
    StatePath(RelativeError),
}

impl SelectionError {
    /// The text of the error.
    pub open spec fn text(self) -> Seq<char> {
        match self {
            SelectionError::AmbiguousBackend => {
                "target has ambiguous OSTree and composefs backend markers"@
            },
            SelectionError::NotASysroot => "target is not an OSTree sysroot"@,
            SelectionError::NotOneDeployment(Backend::Composefs) => {
                "target must contain exactly one composefs deployment; refusing ambiguous selection"@
            },
            SelectionError::NotOneDeployment(Backend::Ostree) => {
                "target must contain exactly one deployment; refusing ambiguous selection"@
            },
            SelectionError::DeploymentPath(e) => e.text(),
            SelectionError::StatePath(e) => e.text(),
        }
    }

    /// The text of the error.
    pub fn message(self) -> (r: String)
        ensures
            r@ == self.text(),
    {
        match self {
            SelectionError::AmbiguousBackend => {
                "target has ambiguous OSTree and composefs backend markers".to_string()
            },
            SelectionError::NotASysroot => "target is not an OSTree sysroot".to_string(),
            SelectionError::NotOneDeployment(Backend::Composefs) => {
                "target must contain exactly one composefs deployment; refusing ambiguous selection".to_string()
            },
            SelectionError::NotOneDeployment(Backend::Ostree) => {
                "target must contain exactly one deployment; refusing ambiguous selection".to_string()
            },
            SelectionError::DeploymentPath(e) => e.message().to_string(),
            SelectionError::StatePath(e) => e.message().to_string(),
        }
    }
}

/// How a sysroot keeps its deployments, by whether it has `ostree/repo` and `composefs`.
pub fn select_backend(repo: bool, composefs: bool) -> (r: Result<Backend, SelectionError>)
    ensures
        r == (match (repo, composefs) {
            (true, true) => Err(SelectionError::AmbiguousBackend),
            (false, true) => Ok(Backend::Composefs),
            (true, false) => Ok(Backend::Ostree),
            (false, false) => Err::<Backend, SelectionError>(SelectionError::NotASysroot),
        }),
{
    if repo && composefs {
        Err(SelectionError::AmbiguousBackend)
    } else if composefs {
        Ok(Backend::Composefs)
    } else if repo {
        Ok(Backend::Ostree)
    } else {
        Err(SelectionError::NotASysroot)
    }
}

/// Whether a name is that of a composefs deployment: the digest of its image.
pub open spec fn is_deployment_id(name: Seq<char>) -> bool {
    name.len() == 128 && forall|i: int| 0 <= i < name.len() ==> is_hex_digit(#[trigger] name[i])
}

/// Whether a name is that of a composefs deployment.
pub fn names_deployment(name: &str) -> (r: bool)
    ensures
        r == is_deployment_id(name@),
{
    let chars = chars_of(name);
    if chars.len() != 128 {
        return false;
    }
    let mut i: usize = 0;
    while i < chars.len()
        invariant
            i <= chars@.len(),
            chars@ == name@,
            forall|j: int| 0 <= j < i ==> is_hex_digit(#[trigger] name@[j]),
        decreases chars@.len() - i,
    {
        let c = chars[i];
        if !(('0' <= c && c <= '9') || ('a' <= c && c <= 'f') || ('A' <= c && c <= 'F')) {
            assert(!is_hex_digit(name@[i as int]));
            return false;
        }
        i = i + 1;
    }
    true
}

/// What is behind the name of a deployment.
#[derive(Debug, Clone, Copy, PartialEq, Eq, Structural)]
pub enum DeploymentState {
    /// It cannot be found out.
    Unreadable,
    NotADirectory,
    /// A directory that cannot be opened.
    Unopenable,
    /// A directory without an `etc` that can be opened.
    NoEtc,
    Sound,
}

/// A name in the directory of the deployments, and what is behind it.
#[derive(Debug)]
pub struct DeploymentEntry {
    pub name: String,
    pub state: DeploymentState,
}

/// The names of the composefs deployments among entries, or the position of the first one
/// that is not sound. Entries by other names do not matter, whatever they are.
pub open spec fn deployments(entries: Seq<DeploymentEntry>) -> Result<Seq<Seq<char>>, int>
    decreases entries.len(),
{
    if entries.len() == 0 {
        Ok(seq![])
    } else {
        match deployments(entries.drop_last()) {
            Err(i) => Err(i),
            Ok(ids) => {
                let last = entries.last();
                if !is_deployment_id(last.name@) {
                    Ok(ids)
                } else if last.state == DeploymentState::Sound {
                    Ok(ids.push(last.name@))
                } else {
                    Err(entries.len() - 1)
                }
            },
        }
    }
}

/// What is wrong with an entry is not mended by those behind it.
proof fn lemma_deployments_stay_bad(entries: Seq<DeploymentEntry>, i: int)
    requires
        0 <= i <= entries.len(),
        deployments(entries.take(i)) is Err,
    ensures
        deployments(entries) == deployments(entries.take(i)),
    decreases entries.len() - i,
{
    if i < entries.len() {
        assert(entries.take(i + 1).drop_last() =~= entries.take(i));
        lemma_deployments_stay_bad(entries, i + 1);
    } else {
        assert(entries.take(i) =~= entries);
    }
}

/// The names of the composefs deployments among entries; an error is what the first one is
/// that is not sound.
pub fn composefs_deployments(entries: &Vec<DeploymentEntry>) -> (r: Result<
    Vec<String>,
    DeploymentState,
>)
    ensures
        match deployments(entries@) {
            Ok(ids) => r matches Ok(v) && texts(v@) == ids,
            Err(i) => 0 <= i < entries@.len() && r == Err::<Vec<String>, DeploymentState>(
                entries@[i].state,
            ) && entries@[i].state != DeploymentState::Sound,
        },
{
    let mut ids = no_texts();
    let mut i: usize = 0;
    assert(entries@.take(0) =~= seq![]);
    while i < entries.len()
        invariant
            i <= entries@.len(),
            deployments(entries@.take(i as int)) == Ok::<Seq<Seq<char>>, int>(texts(ids@)),
        decreases entries@.len() - i,
    {
        let entry = &entries[i];
        let ghost now = entries@.take(i + 1);
        assert(now.drop_last() =~= entries@.take(i as int));
        assert(now.last() == *entry);
        if names_deployment(entry.name.as_str()) {
            if entry.state == DeploymentState::Sound {
                push_text(&mut ids, entry.name.as_str());
            } else {
                proof {
                    assert(deployments(now) == Err::<Seq<Seq<char>>, int>(i as int));
                    lemma_deployments_stay_bad(entries@, i + 1);
                }
                return Err(entry.state);
            }
        }
        i = i + 1;
    }
    assert(entries@.take(i as int) =~= entries@);
    Ok(ids)
}

/// The deployment of a sysroot, which has to have exactly one.
pub fn only_deployment(ids: &Vec<String>, backend: Backend) -> (r: Result<&str, SelectionError>)
    ensures
        if ids@.len() == 1 {
            r matches Ok(id) && id@ == ids@[0]@
        } else {
            r == Err::<&str, SelectionError>(SelectionError::NotOneDeployment(backend))
        },
{
    if ids.len() == 1 {
        Ok(ids[0].as_str())
    } else {
        Err(SelectionError::NotOneDeployment(backend))
    }
}

/// Where the parts of a deployment are, below the sysroot.
#[derive(Debug)]
pub struct DeploymentPaths {
    /// The directory of the deployment.
    pub root: String,
    pub etc: String,
    pub var: String,
}

/// The state of an OSTree deployment.
pub open spec fn state_path(stateroot: Seq<char>) -> Seq<char> {
    joined_path(joined_path("ostree/deploy"@, stateroot), VAR@)
}

/// The state of an OSTree deployment.
pub fn ostree_state_path(stateroot: &str) -> (r: String)
    ensures
        r@ == state_path(stateroot@),
{
    let deploy = join_path("ostree/deploy", stateroot);
    join_path(deploy.as_str(), VAR)
}

/// Where the parts of an OSTree deployment are. Both paths have to lie below the sysroot.
pub fn ostree_paths(dirpath: &str, stateroot: &str) -> (r: Result<DeploymentPaths, SelectionError>)
    ensures
        match (relative_error(dirpath@), relative_error(state_path(stateroot@))) {
            (Some(e), _) => r == Err::<DeploymentPaths, _>(SelectionError::DeploymentPath(e)),
            (None, Some(e)) => r == Err::<DeploymentPaths, _>(SelectionError::StatePath(e)),
            (None, None) => r matches Ok(p) && p.root@ == dirpath@ && p.etc@ == joined_path(
                dirpath@,
                ETC@,
            ) && p.var@ == state_path(stateroot@),
        },
{
    match validate_relative_mount_path(dirpath) {
        Ok(()) => {},
        Err(e) => return Err(SelectionError::DeploymentPath(e)),
    }
    let var = ostree_state_path(stateroot);
    match validate_relative_mount_path(var.as_str()) {
        Ok(()) => {},
        Err(e) => return Err(SelectionError::StatePath(e)),
    }
    Ok(DeploymentPaths { root: dirpath.to_string(), etc: join_path(dirpath, ETC), var })
}

/// The OSTree repository of a sysroot, which tells that its deployments are OSTree's.
pub fn ostree_repo_path(sysroot: &str) -> (r: String)
    ensures
        r@ == joined_path(sysroot@, "ostree/repo"@),
{
    join_path(sysroot, "ostree/repo")
}

/// Where the parts of a composefs deployment are.
pub fn composefs_paths(id: &str) -> (r: DeploymentPaths)
    ensures
        r.root@ == joined_path("state/deploy"@, id@),
        r.etc@ == joined_path(joined_path("state/deploy"@, id@), ETC@),
        r.var@ == "state/os/default/var"@,
{
    let root = join_path("state/deploy", id);
    let etc = join_path(root.as_str(), ETC);
    DeploymentPaths { root, etc, var: "state/os/default/var".to_string() }
}

// ---------------------------------------------------------------------------
// Laws of the selection
// ---------------------------------------------------------------------------

/// Whether an entry counts as a deployment: its name is 128 hexadecimal digits.
pub open spec fn counts(e: DeploymentEntry) -> bool {
    e.name@.len() == 128 && forall|i: int|
        0 <= i < 128 ==> ('0' <= #[trigger] e.name@[i] && e.name@[i] <= '9') || ('a' <= e.name@[i]
            && e.name@[i] <= 'f') || ('A' <= e.name@[i] && e.name@[i] <= 'F')
}

/// The deployments among entries are exactly those that count, each by its own name, in their order
/// and as often as they are there; they are found only if all of them are sound.
pub proof fn law_every_deployment_is_listed(entries: Seq<DeploymentEntry>)
    ensures
        match deployments(entries) {
            Ok(ids) => {
                &&& ids == entries.filter(|e: DeploymentEntry| counts(e)).map_values(
                    |e: DeploymentEntry| e.name@,
                )
                &&& forall|k: int|
                    0 <= k < entries.len() && counts(#[trigger] entries[k]) ==> entries[k].state
                        is Sound && ids.contains(entries[k].name@)
            },
            Err(i) => {
                &&& 0 <= i < entries.len()
                &&& counts(entries[i])
                &&& !(entries[i].state is Sound)
                &&& forall|k: int|
                    0 <= k < i && counts(#[trigger] entries[k]) ==> entries[k].state is Sound
            },
        },
    decreases entries.len(),
{
    let picked = |e: DeploymentEntry| counts(e);
    let named = |e: DeploymentEntry| e.name@;
    reveal(Seq::filter);
    if entries.len() == 0 {
        assert(entries.filter(picked).map_values(named) =~= seq![]);
    } else {
        let head = entries.drop_last();
        let last = entries.last();
        law_every_deployment_is_listed(head);
        assert(counts(last) == is_deployment_id(last.name@));
        assert forall|k: int| 0 <= k < head.len() implies #[trigger] entries[k] == head[k] by {}
        match deployments(head) {
            Ok(ids) => {
                if counts(last) && last.state == DeploymentState::Sound {
                    let now = ids.push(last.name@);
                    assert(entries.filter(picked) == head.filter(picked).push(last));
                    assert(entries.filter(picked).map_values(named) =~= now);
                    assert forall|k: int| 0 <= k < entries.len() && counts(#[trigger] entries[k]) implies entries[k].state
                        is Sound && now.contains(entries[k].name@) by {
                        if k < head.len() {
                            assert(counts(head[k]));
                            let j = choose|j: int| 0 <= j < ids.len() && ids[j] == head[k].name@;
                            assert(now[j] == entries[k].name@);
                        } else {
                            assert(now[ids.len() as int] == last.name@);
                        }
                    }
                } else if !counts(last) {
                    assert(entries.filter(picked) == head.filter(picked));
                    assert forall|k: int| 0 <= k < entries.len() && counts(#[trigger] entries[k]) implies entries[k].state
                        is Sound && ids.contains(entries[k].name@) by {
                        assert(counts(head[k]));
                    }
                } else {
                    assert forall|k: int|
                        0 <= k < entries.len() - 1 && counts(#[trigger] entries[k]) implies entries[k].state
                        is Sound by {
                        assert(counts(head[k]));
                    }
                }
            },
            Err(i) => {
                assert(entries[i] == head[i]);
                assert forall|k: int| 0 <= k < i && counts(#[trigger] entries[k]) implies entries[k].state
                    is Sound by {
                    assert(counts(head[k]));
                }
            },
        }
    }
}

/// Two deployments are never taken for one, and one among other entries is found: the number of
/// deployments that are listed is one exactly if one entry counts.
pub proof fn law_two_deployments_are_ambiguous(entries: Seq<DeploymentEntry>, j: int, k: int)
    requires
        0 <= j < k < entries.len(),
        counts(entries[j]),
        counts(entries[k]),
    ensures
        deployments(entries) matches Ok(ids) ==> ids.len() >= 2,
    decreases entries.len(),
{
    let head = entries.drop_last();
    law_every_deployment_is_listed(entries);
    law_every_deployment_is_listed(head);
    assert(head[j] == entries[j]);
    if k < head.len() {
        assert(head[k] == entries[k]);
        law_two_deployments_are_ambiguous(head, j, k);
    } else {
        assert(entries.last() == entries[k]);
        assert(is_deployment_id(entries[k].name@));
        if deployments(head) is Ok {
            let ids = deployments(head)->Ok_0;
            assert(ids.contains(head[j].name@));
            assert(ids.len() > 0);
        }
    }
}

/// A single sound deployment is found, whatever else there is that does not count.
pub proof fn law_the_only_deployment_is_found(entries: Seq<DeploymentEntry>, k: int)
    requires
        0 <= k < entries.len(),
        counts(entries[k]),
        entries[k].state is Sound,
        forall|i: int| 0 <= i < entries.len() && i != k ==> !counts(#[trigger] entries[i]),
    ensures
        deployments(entries) == Ok::<Seq<Seq<char>>, int>(seq![entries[k].name@]),
    decreases entries.len(),
{
    let head = entries.drop_last();
    let last = entries.last();
    assert(last == entries[entries.len() - 1]);
    assert(counts(last) == is_deployment_id(last.name@));
    assert forall|i: int| 0 <= i < head.len() && i != k implies !counts(#[trigger] head[i]) by {
        assert(head[i] == entries[i]);
    }
    if k < head.len() {
        assert(head[k] == entries[k]);
        law_the_only_deployment_is_found(head, k);
    } else {
        lemma_none_counts(head);
        assert(Seq::<Seq<char>>::empty().push(last.name@) =~= seq![last.name@]);
    }
}

/// Where no entry counts there is no deployment.
proof fn lemma_none_counts(entries: Seq<DeploymentEntry>)
    requires
        forall|i: int| 0 <= i < entries.len() ==> !counts(#[trigger] entries[i]),
    ensures
        deployments(entries) == Ok::<Seq<Seq<char>>, int>(seq![]),
    decreases entries.len(),
{
    if entries.len() > 0 {
        let head = entries.drop_last();
        let last = entries.last();
        assert(last == entries[entries.len() - 1]);
        assert(counts(last) == is_deployment_id(last.name@));
        assert forall|i: int| 0 <= i < head.len() implies !counts(#[trigger] head[i]) by {
            assert(head[i] == entries[i]);
        }
        lemma_none_counts(head);
    }
}

/// A target is accepted exactly if both paths are absolute, the target is an empty directory, and
/// neither real path begins with the other.
pub proof fn law_target_is_accepted(
    sysroot: Seq<char>,
    target: Seq<char>,
    kind: TargetKind,
    real_sysroot: Option<Seq<char>>,
    real_target: Option<Seq<char>>,
)
    ensures
        target_error(sysroot, target, kind, real_sysroot, real_target) is None <==> {
            &&& sysroot.len() > 0 && sysroot[0] == '/'
            &&& target.len() > 0 && target[0] == '/'
            &&& kind is Empty
            &&& real_sysroot is Some
            &&& real_target is Some
            &&& !components(real_sysroot->0).is_prefix_of(components(real_target->0))
            &&& !components(real_target->0).is_prefix_of(components(real_sysroot->0))
        },
{
    crate::paths::law_absolute_begins_with_a_slash(sysroot);
    crate::paths::law_absolute_begins_with_a_slash(target);
}

/// The state of an OSTree deployment lies in its stateroot, below `ostree/deploy`.
pub proof fn law_state_lies_in_the_stateroot(stateroot: Seq<char>)
    requires
        stateroot.len() > 0,
        stateroot[0] != '/',
        stateroot.last() != '/',
    ensures
        state_path(stateroot) == "ostree/deploy/"@ + stateroot + "/var"@,
{
    reveal_strlit("/");
    reveal_strlit("/var");
    reveal_strlit("var");
    reveal_strlit("ostree/deploy");
    reveal_strlit("ostree/deploy/");
    crate::paths::lemma_not_absolute(stateroot);
    crate::paths::lemma_not_absolute("var"@);
    let deploy = "ostree/deploy/"@ + stateroot;
    assert("ostree/deploy"@.last() == 'y');
    assert(joined_path("ostree/deploy"@, stateroot) =~= deploy);
    assert(deploy.last() == stateroot.last());
    assert(state_path(stateroot) =~= deploy + "/var"@);
}

/// The directories that are opened one in the other are the names of the path, each of them and in
/// their order, up to the first component that is none.
pub proof fn law_names_are_opened_in_order(c: Seq<ComponentSpec>)
    ensures
        leading_names(c).len() <= c.len(),
        forall|i: int|
            0 <= i < leading_names(c).len() ==> c[i] == ComponentSpec::Normal(
                #[trigger] leading_names(c)[i],
            ),
        leading_names(c).len() < c.len() ==> !(c[leading_names(c).len() as int] is Normal),
    decreases c.len(),
{
    if c.len() > 0 && c[0] is Normal {
        let rest = c.drop_first();
        law_names_are_opened_in_order(rest);
        let names = leading_names(c);
        assert forall|i: int| 0 <= i < names.len() implies c[i] == ComponentSpec::Normal(
            #[trigger] names[i],
        ) by {
            if i > 0 {
                assert(names[i] == leading_names(rest)[i - 1]);
                assert(rest[i - 1] == c[i]);
            }
        }
        if names.len() < c.len() {
            assert(c[names.len() as int] == rest[leading_names(rest).len() as int]);
        }
    }
}

/// A path that is to lie below the sysroot is refused exactly if it is absolute, empty, or holds
/// something that is no name, and that is told of in this order.
pub proof fn law_relative_paths(path: Seq<char>)
    ensures
        relative_error(path) == Some(RelativeError::Absolute) <==> path.len() > 0 && path[0] == '/',
        relative_error(path) == Some(RelativeError::Empty) <==> path.len() == 0,
        relative_error(path) is None <==> {
            &&& path.len() > 0
            &&& path[0] != '/'
            &&& forall|i: int|
                0 <= i < components(path).len() ==> #[trigger] components(path)[i] is Normal
        },
{
    crate::paths::law_absolute_begins_with_a_slash(path);
}

/// What is told of a target that is refused, of a path that leads elsewhere and of a sysroot from which none can be selected.
pub proof fn law_target_messages(sysroot: Seq<char>, target: Seq<char>, e: RelativeError)
    ensures
        TargetError::SysrootNotAbsolute.text(sysroot, target) == "--sysroot must be absolute"@,
        TargetError::TargetNotAbsolute.text(sysroot, target) == "mount target must be absolute"@,
        TargetError::Unreadable.text(sysroot, target) == "Opening mount target "@ + target,
        TargetError::NotADirectory.text(sysroot, target) == "mount target must be a real directory: "@ + target,
        TargetError::Unlistable.text(sysroot, target) == "Reading mount target "@ + target,
        TargetError::NotEmpty.text(sysroot, target) == "mount target must be an existing empty directory: "@ + target,
        TargetError::SysrootUnresolved.text(sysroot, target) == "Resolving sysroot "@ + sysroot,
        TargetError::TargetUnresolved.text(sysroot, target) == "Resolving mount target "@ + target,
        TargetError::Overlap.text(sysroot, target) == "sysroot and mount target must not overlap"@,
        RelativeError::Absolute.text() == "path must be relative to the sysroot"@,
        RelativeError::Empty.text() == "path must not be empty"@,
        RelativeError::NotNormal.text() == "path must contain only normal components"@,
        SelectionError::AmbiguousBackend.text() == "target has ambiguous OSTree and composefs backend markers"@,
        SelectionError::NotASysroot.text() == "target is not an OSTree sysroot"@,
        SelectionError::NotOneDeployment(Backend::Composefs).text() == "target must contain exactly one composefs deployment; refusing ambiguous selection"@,
        SelectionError::NotOneDeployment(Backend::Ostree).text() == "target must contain exactly one deployment; refusing ambiguous selection"@,
        SelectionError::DeploymentPath(e).text() == e.text(),
        SelectionError::StatePath(e).text() == e.text(),
{
}

// ---------------------------------------------------------------------------
// Laws of the functions
// ---------------------------------------------------------------------------

/// A sysroot has one backend, or is refused: with both markers it is ambiguous, with none it is no
/// sysroot.
pub proof fn law_backends(repo: bool, composefs: bool, r: Result<Backend, SelectionError>)
    requires
        call_ensures(select_backend, (repo, composefs), r),
    ensures
        r == Ok::<Backend, SelectionError>(Backend::Ostree) <==> repo && !composefs,
        r == Ok::<Backend, SelectionError>(Backend::Composefs) <==> composefs && !repo,
        repo && composefs ==> r == Err::<Backend, _>(SelectionError::AmbiguousBackend),
        !repo && !composefs ==> r == Err::<Backend, _>(SelectionError::NotASysroot),
{
}

/// Of the entries of a composefs sysroot a deployment is selected exactly if one of them counts, and is
/// sound; then it is that one.
pub proof fn law_exactly_one_deployment(
    entries: &Vec<DeploymentEntry>,
    listed: Result<Vec<String>, DeploymentState>,
    ids: &Vec<String>,
    r: Result<&str, SelectionError>,
    j: int,
    k: int,
)
    requires
        call_ensures(composefs_deployments, (entries,), listed),
        listed == Ok::<Vec<String>, DeploymentState>(*ids),
        call_ensures(only_deployment, (ids, Backend::Composefs), r),
        0 <= j < entries@.len(),
        0 <= k < entries@.len(),
    ensures
        j != k && counts(entries@[j]) && counts(entries@[k]) ==> r == Err::<&str, _>(
            SelectionError::NotOneDeployment(Backend::Composefs),
        ),
        counts(entries@[k]) && (forall|i: int|
            0 <= i < entries@.len() && i != k ==> !counts(#[trigger] entries@[i])) ==> (r matches Ok(
            id,
        ) && id@ == entries@[k].name@),
        (forall|i: int| 0 <= i < entries@.len() ==> !counts(#[trigger] entries@[i])) ==> r == Err::<
            &str,
            _,
        >(SelectionError::NotOneDeployment(Backend::Composefs)),
{
    let all = deployments(entries@)->Ok_0;
    assert(texts(ids@).len() == ids@.len());
    law_every_deployment_is_listed(entries@);
    if counts(entries@[j]) && counts(entries@[k]) {
        if j < k {
            law_two_deployments_are_ambiguous(entries@, j, k);
        } else if k < j {
            law_two_deployments_are_ambiguous(entries@, k, j);
        }
    }
    if counts(entries@[k]) && (forall|i: int|
        0 <= i < entries@.len() && i != k ==> !counts(#[trigger] entries@[i])) {
        law_the_only_deployment_is_found(entries@, k);
        assert(texts(ids@)[0] == ids@[0]@);
    }
    if forall|i: int| 0 <= i < entries@.len() ==> !counts(#[trigger] entries@[i]) {
        lemma_none_counts(entries@);
    }
}

/// Where the parts of a composefs deployment are: it and its `etc` by its ID, its `var` shared.
pub proof fn law_composefs_paths(id: &str, r: DeploymentPaths)
    requires
        call_ensures(composefs_paths, (id,), r),
        id@.len() > 0,
        id@[0] != '/',
        id@.last() != '/',
    ensures
        r.root@ == "state/deploy/"@ + id@,
        r.etc@ == "state/deploy/"@ + id@ + "/etc"@,
        r.var@ == "state/os/default/var"@,
{
    reveal_strlit("etc");
    reveal_strlit("/etc");
    reveal_strlit("state/deploy");
    reveal_strlit("state/deploy/");
    law_joined_path("state/deploy"@, id@);
    assert("state/deploy"@.last() == 'y');
    let root = "state/deploy/"@ + id@;
    assert(joined_path("state/deploy"@, id@) =~= root);
    assert(root.last() == id@.last());
    law_joined_path(root, ETC@);
    assert(root.push('/') + ETC@ =~= root + "/etc"@);
}

/// Where the parts of an OSTree deployment are: its `etc` in it, its `var` in its stateroot.
pub proof fn law_ostree_paths(
    dirpath: &str,
    stateroot: &str,
    r: Result<DeploymentPaths, SelectionError>,
)
    requires
        call_ensures(ostree_paths, (dirpath, stateroot), r),
        dirpath@.len() > 0,
        dirpath@.last() != '/',
        stateroot@.len() > 0,
        stateroot@[0] != '/',
        stateroot@.last() != '/',
    ensures
        r matches Ok(p) ==> {
            &&& p.root@ == dirpath@
            &&& p.etc@ == dirpath@ + "/etc"@
            &&& p.var@ == "ostree/deploy/"@ + stateroot@ + "/var"@
            &&& relative_error(dirpath@) is None
            &&& relative_error(p.var@) is None
        },
        r is Err <==> relative_error(dirpath@) is Some || relative_error(
            "ostree/deploy/"@ + stateroot@ + "/var"@,
        ) is Some,
{
    reveal_strlit("etc");
    reveal_strlit("/etc");
    law_state_lies_in_the_stateroot(stateroot@);
    law_joined_path(dirpath@, ETC@);
    assert(dirpath@.push('/') + ETC@ =~= dirpath@ + "/etc"@);
}

/// A target to unmount is accepted exactly if it begins with a slash.
pub proof fn law_unmount_targets(target: &str, r: Result<(), TargetError>)
    requires
        call_ensures(validate_unmount_target, (target,), r),
    ensures
        r is Ok <==> target@.len() > 0 && target@[0] == '/',
        r is Err ==> r == Err::<(), _>(TargetError::TargetNotAbsolute),
{
    crate::paths::law_absolute_begins_with_a_slash(target@);
}

} // verus!
