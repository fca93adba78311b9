//! Unix paths, held as texts.

use vstd::prelude::*;

use crate::text::{
    begins_with, concat2, concat3, ends_with, lacks, law_split_char, opt_text, same, split_at_char,
    split_char, texts,
};

verus! {

/// Whether a path is absolute.
pub open spec fn is_absolute(path: Seq<char>) -> bool {
    "/"@.is_prefix_of(path)
}

/// A path is absolute exactly if it begins with a slash.
pub proof fn law_absolute_begins_with_a_slash(path: Seq<char>)
    ensures
        is_absolute(path) <==> path.len() > 0 && path[0] == '/',
{
    reveal_strlit("/");
    if path.len() > 0 && path[0] == '/' {
        assert("/"@ =~= path.subrange(0, 1));
    } else if path.len() > 0 {
        lemma_not_absolute(path);
    }
}

/// A path that begins with another character than a slash is relative.
pub proof fn lemma_not_absolute(path: Seq<char>)
    requires
        path.len() > 0,
        path[0] != '/',
    ensures
        !is_absolute(path),
{
    reveal_strlit("/");
    if is_absolute(path) {
        assert(path.subrange(0, 1)[0] == "/"@[0]);
    }
}

/// A path below another. An absolute path replaces the one before it.
pub open spec fn joined_path(base: Seq<char>, path: Seq<char>) -> Seq<char> {
    if is_absolute(path) {
        path
    } else if base.len() == 0 || "/"@.is_suffix_of(base) {
        base + path
    } else {
        base + "/"@ + path
    }
}

/// A path below another. An absolute path replaces the one before it.
pub fn join_path(base: &str, path: &str) -> (r: String)
    ensures
        r@ == joined_path(base@, path@),
{
    if begins_with(path, "/") {
        path.to_string()
    } else if base.is_empty() || ends_with(base, "/") {
        concat2(base, path)
    } else {
        concat3(base, "/", path)
    }
}

// ---------------------------------------------------------------------------
// Components
// ---------------------------------------------------------------------------

/// A component of a path.
#[derive(Debug)]
pub enum Component {
    /// The root of an absolute path.
    Root,
    /// A `.` at the beginning of a relative path.
    Current,
    /// `..`
    Parent,
    /// A name.
    Normal(String),
}

/// A component of a path, in terms of texts.
pub enum ComponentSpec {
    Root,
    Current,
    Parent,
    Normal(Seq<char>),
}

impl Component {
    pub open spec fn view(&self) -> ComponentSpec {
        match *self {
            Component::Root => ComponentSpec::Root,
            Component::Current => ComponentSpec::Current,
            Component::Parent => ComponentSpec::Parent,
            Component::Normal(name) => ComponentSpec::Normal(name@),
        }
    }

    /// Whether two components are the same.
    fn same_as(&self, other: &Component) -> (r: bool)
        ensures
            r == (self@ == other@),
    {
        match (self, other) {
            (Component::Root, Component::Root) => true,
            (Component::Current, Component::Current) => true,
            (Component::Parent, Component::Parent) => true,
            (Component::Normal(a), Component::Normal(b)) => same(a.as_str(), b.as_str()),
            _ => false,
        }
    }
}

/// The components of a list, in terms of texts.
pub open spec fn component_specs(list: Seq<Component>) -> Seq<ComponentSpec> {
    Seq::new(list.len(), |i: int| list[i]@)
}

/// The components that stand for the parts of a path between its slashes: an empty part
/// and a `.` stand for none.
pub open spec fn part_components(parts: Seq<Seq<char>>) -> Seq<ComponentSpec>
    decreases parts.len(),
{
    if parts.len() == 0 {
        seq![]
    } else {
        let before = part_components(parts.drop_last());
        let part = parts.last();
        if part.len() == 0 || part == "."@ {
            before
        } else if part == ".."@ {
            before.push(ComponentSpec::Parent)
        } else {
            before.push(ComponentSpec::Normal(part))
        }
    }
}

/// With what the components of a path begin: the root of an absolute path, the `.` with
/// which a relative one begins.
pub open spec fn lead_components(path: Seq<char>) -> Seq<ComponentSpec> {
    if is_absolute(path) {
        seq![ComponentSpec::Root]
    } else if split_char(path, '/')[0] == "."@ {
        seq![ComponentSpec::Current]
    } else {
        seq![]
    }
}

/// The components of a path. Repeated slashes, slashes at the end and a `.` that is not
/// the beginning make no difference.
pub open spec fn components(path: Seq<char>) -> Seq<ComponentSpec> {
    lead_components(path) + part_components(split_char(path, '/'))
}

/// The components of a path.
pub fn components_of(path: &str) -> (r: Vec<Component>)
    ensures
        component_specs(r@) == components(path@),
{
    let parts = split_at_char(path, '/');
    let ghost all = texts(parts@);
    proof {
        crate::text::lemma_split_char_nonempty(path@, '/');
        assert(all.len() == parts@.len());
        assert(all[0] == parts@[0]@);
    }
    let mut out: Vec<Component> = Vec::new();
    if begins_with(path, "/") {
        out.push(Component::Root);
    } else if same(parts[0].as_str(), ".") {
        out.push(Component::Current);
    }
    let ghost lead = lead_components(path@);
    assert(component_specs(out@) =~= lead);
    let mut i: usize = 0;
    assert(all.take(0) =~= seq![]);
    assert(lead + part_components(all.take(0)) =~= lead);
    while i < parts.len()
        invariant
            i <= parts@.len(),
            all == texts(parts@),
            component_specs(out@) == lead + part_components(all.take(i as int)),
        decreases parts@.len() - i,
    {
        let part = parts[i].as_str();
        let ghost before = out@;
        assert(all.take(i + 1).drop_last() =~= all.take(i as int));
        assert(all.take(i + 1).last() == part@);
        if !part.is_empty() && !same(part, ".") {
            let c = if same(part, "..") {
                Component::Parent
            } else {
                Component::Normal(part.to_string())
            };
            out.push(c);
            assert(component_specs(out@) =~= component_specs(before).push(c@));
        }
        assert(component_specs(out@) =~= lead + part_components(all.take(i + 1)));
        i = i + 1;
    }
    assert(all.take(i as int) =~= all);
    out
}

/// How many components a path has.
pub fn component_count(path: &str) -> (r: usize)
    ensures
        r == components(path@).len(),
{
    let c = components_of(path);
    assert(component_specs(c@).len() == c@.len());
    c.len()
}

/// Whether the components of `a` begin with those of `b`.
pub open spec fn starts_with(a: Seq<char>, b: Seq<char>) -> bool {
    components(b).is_prefix_of(components(a))
}

/// Whether the first `n` components of two lists are the same.
fn same_components(a: &Vec<Component>, b: &Vec<Component>, n: usize) -> (r: bool)
    requires
        n <= a@.len(),
        n <= b@.len(),
    ensures
        r == (component_specs(a@).take(n as int) == component_specs(b@).take(n as int)),
{
    let mut i: usize = 0;
    let ghost x = component_specs(a@);
    let ghost y = component_specs(b@);
    while i < n
        invariant
            i <= n,
            n <= a@.len(),
            n <= b@.len(),
            x == component_specs(a@),
            y == component_specs(b@),
            x.take(i as int) == y.take(i as int),
        decreases n - i,
    {
        assert(x[i as int] == a@[i as int]@);
        assert(y[i as int] == b@[i as int]@);
        if !a[i].same_as(&b[i]) {
            assert(x.take(n as int)[i as int] != y.take(n as int)[i as int]);
            return false;
        }
        assert(x.take(i + 1) =~= x.take(i as int).push(x[i as int]));
        assert(y.take(i + 1) =~= y.take(i as int).push(y[i as int]));
        i = i + 1;
    }
    true
}

/// Whether the components of `a` begin with those of `b`.
pub fn path_starts_with(a: &str, b: &str) -> (r: bool)
    ensures
        r == starts_with(a@, b@),
{
    let ca = components_of(a);
    let cb = components_of(b);
    let ghost x = component_specs(ca@);
    let ghost y = component_specs(cb@);
    assert(x.len() == ca@.len() && y.len() == cb@.len());
    if ca.len() < cb.len() {
        return false;
    }
    let n = cb.len();
    assert(y.take(n as int) =~= y);
    assert(x.take(n as int) =~= x.subrange(0, n as int));
    same_components(&ca, &cb, n)
}

/// Whether two paths have the same components.
pub open spec fn path_eq(a: Seq<char>, b: Seq<char>) -> bool {
    components(a) == components(b)
}

/// Whether two paths have the same components.
pub fn same_path(a: &str, b: &str) -> (r: bool)
    ensures
        r == path_eq(a@, b@),
{
    let ca = components_of(a);
    let cb = components_of(b);
    let ghost x = component_specs(ca@);
    let ghost y = component_specs(cb@);
    assert(x.len() == ca@.len() && y.len() == cb@.len());
    if ca.len() != cb.len() {
        return false;
    }
    let n = cb.len();
    assert(y.take(n as int) =~= y);
    assert(x.take(n as int) =~= x);
    same_components(&ca, &cb, n)
}

/// The last component of a path, if it is a name.
pub open spec fn file_name(path: Seq<char>) -> Option<Seq<char>> {
    let c = components(path);
    if c.len() == 0 {
        None
    } else {
        match c.last() {
            ComponentSpec::Normal(name) => Some(name),
            _ => None,
        }
    }
}

/// The last component of a path, if it is a name.
pub fn file_name_of(path: &str) -> (r: Option<String>)
    ensures
        opt_text(r) == file_name(path@),
{
    let mut c = components_of(path);
    let ghost all = component_specs(c@);
    assert(all.len() == c@.len());
    match c.pop() {
        Some(last) => {
            assert(all.last() == last@);
            match last {
                Component::Normal(name) => Some(name),
                _ => None,
            }
        },
        None => None,
    }
}

// ---------------------------------------------------------------------------
// Joining and components
// ---------------------------------------------------------------------------

/// A slash between two texts parts them.
proof fn lemma_split_joined(a: Seq<char>, b: Seq<char>)
    ensures
        split_char(a + "/"@ + b, '/') == split_char(a, '/') + split_char(b, '/'),
    decreases b.len(),
{
    reveal_strlit("/");
    let s = a + "/"@ + b;
    crate::text::lemma_split_char_nonempty(a, '/');
    crate::text::lemma_split_char_nonempty(b, '/');
    if b.len() == 0 {
        assert(s.drop_last() =~= a);
        assert(s.last() == '/');
        assert(split_char(s, '/') =~= split_char(a, '/') + split_char(b, '/'));
    } else {
        let c = b.drop_last();
        lemma_split_joined(a, c);
        crate::text::lemma_split_char_nonempty(c, '/');
        assert(s.drop_last() =~= a + "/"@ + c);
        assert(s.last() == b.last());
        let x = split_char(a, '/');
        let y = split_char(c, '/');
        assert((x + y).last() == y.last());
        assert((x + y).drop_last() =~= x + y.drop_last());
        assert(split_char(s, '/') =~= x + split_char(b, '/'));
    }
}

/// The components of parts one behind the other.
proof fn lemma_part_components_add(a: Seq<Seq<char>>, b: Seq<Seq<char>>)
    ensures
        part_components(a + b) == part_components(a) + part_components(b),
    decreases b.len(),
{
    if b.len() == 0 {
        assert(a + b =~= a);
    } else {
        lemma_part_components_add(a, b.drop_last());
        assert((a + b).drop_last() =~= a + b.drop_last());
        assert((a + b).last() == b.last());
        assert(part_components(a + b) =~= part_components(a) + part_components(b));
    }
}

/// Whether a path is made of names alone.
pub open spec fn only_names(path: Seq<char>) -> bool {
    forall|i: int|
        0 <= i < components(path).len() ==> #[trigger] components(path)[i] is Normal
}

/// A path of names has no beginning of its own.
proof fn lemma_names_lead(path: Seq<char>)
    requires
        only_names(path),
    ensures
        lead_components(path) == Seq::<ComponentSpec>::empty(),
        components(path) == part_components(split_char(path, '/')),
        !is_absolute(path),
{
    let lead = lead_components(path);
    if lead.len() > 0 {
        assert(components(path)[0] == lead[0]);
        assert(components(path)[0] is Normal);
    }
    assert(lead =~= Seq::<ComponentSpec>::empty());
    assert(components(path) =~= part_components(split_char(path, '/')));
}

/// Names that are joined to a path stay below it: its components come first, then theirs.
pub proof fn law_joined_names_stay_below(base: Seq<char>, names: Seq<char>)
    requires
        only_names(names),
    ensures
        components(joined_path(base, names)) == components(base) + components(names),
        starts_with(joined_path(base, names), base),
{
    reveal_strlit("/");
    reveal_strlit(".");
    lemma_names_lead(names);
    let s = joined_path(base, names);
    let below = split_char(names, '/');
    if base.len() == 0 {
        assert(s =~= names);
        assert(split_char(base, '/') =~= seq![seq![]]);
        assert(!is_absolute(base));
        assert(lead_components(base) =~= seq![]) by {
            assert(split_char(base, '/')[0].len() == 0);
        }
        assert(part_components(split_char(base, '/')) =~= seq![]) by {
            reveal_with_fuel(part_components, 2);
            assert(split_char(base, '/').drop_last() =~= seq![]);
        }
        assert(components(s) =~= components(base) + components(names));
    } else {
        let head = if "/"@.is_suffix_of(base) {
            base.drop_last()
        } else {
            base
        };
        if "/"@.is_suffix_of(base) {
            assert(base.last() == '/') by {
                assert(base.subrange(base.len() - 1, base.len() as int)[0] == "/"@[0]);
            }
            assert(base =~= head + "/"@ + seq![]);
            assert(s =~= head + "/"@ + names);
            lemma_split_joined(head, seq![]);
            assert(split_char(seq![], '/') =~= seq![seq![]]);
            lemma_part_components_add(split_char(head, '/'), seq![seq![]]);
            assert(part_components(seq![Seq::<char>::empty()]) =~= seq![]) by {
                reveal_with_fuel(part_components, 2);
                assert(seq![Seq::<char>::empty()].drop_last() =~= seq![]);
            }
        }
        lemma_split_joined(head, names);
        lemma_part_components_add(split_char(head, '/'), below);
        crate::text::lemma_split_char_nonempty(head, '/');
        assert(split_char(s, '/')[0] == split_char(base, '/')[0]);
        assert(s[0] == base[0]);
        lemma_absolute_by_first(s);
        lemma_absolute_by_first(base);
        assert(lead_components(s) == lead_components(base));
        assert(part_components(split_char(base, '/')) =~= part_components(split_char(head, '/')));
        assert(components(s) =~= components(base) + components(names));
    }
    assert((components(base) + components(names)).subrange(0, components(base).len() as int)
        =~= components(base));
}

/// The first character tells whether a path is absolute.
proof fn lemma_absolute_by_first(path: Seq<char>)
    requires
        path.len() > 0,
    ensures
        is_absolute(path) == (path[0] == '/'),
{
    reveal_strlit("/");
    if path[0] == '/' {
        assert(path.subrange(0, 1) =~= "/"@);
    } else {
        lemma_not_absolute(path);
    }
}

// ---------------------------------------------------------------------------
// Sets of paths
// ---------------------------------------------------------------------------

/// Paths, up to the way in which they are written.
#[derive(Debug)]
pub struct PathSet {
    paths: Vec<String>,
}

impl PathSet {
    /// The paths of the set, by their components.
    pub closed spec fn view(&self) -> Set<Seq<ComponentSpec>> {
        Set::new(
            |c: Seq<ComponentSpec>|
                exists|i: int| 0 <= i < self.paths@.len() && components(#[trigger] self.paths@[i]@) == c,
        )
    }

    /// An empty set.
    pub fn new() -> (r: PathSet)
        ensures
            r@ == Set::<Seq<ComponentSpec>>::empty(),
    {
        let r = PathSet { paths: Vec::new() };
        assert(r@ =~= Set::empty());
        r
    }

    /// Whether a path is in the set.
    pub fn contains(&self, path: &str) -> (r: bool)
        ensures
            r == self@.contains(components(path@)),
    {
        let mut i: usize = 0;
        while i < self.paths.len()
            invariant
                i <= self.paths@.len(),
                forall|j: int|
                    0 <= j < i ==> components(#[trigger] self.paths@[j]@) != components(path@),
            decreases self.paths@.len() - i,
        {
            if same_path(self.paths[i].as_str(), path) {
                return true;
            }
            i = i + 1;
        }
        false
    }

    /// Puts a path into the set.
    pub fn insert(&mut self, path: &str)
        ensures
            final(self)@ == old(self)@.insert(components(path@)),
    {
        let ghost before = self.paths@;
        let ghost set = self@;
        if self.contains(path) {
            assert(set =~= set.insert(components(path@)));
            return ;
        }
        self.paths.push(path.to_string());
        assert(self@ =~= set.insert(components(path@))) by {
            assert forall|c: Seq<ComponentSpec>| self@.contains(c) == set.insert(
                components(path@),
            ).contains(c) by {
                if set.contains(c) {
                    let i = choose|i: int|
                        0 <= i < before.len() && components(#[trigger] before[i]@) == c;
                    assert(self.paths@[i] == before[i]);
                }
                if self@.contains(c) {
                    let i = choose|i: int|
                        0 <= i < self.paths@.len() && components(#[trigger] self.paths@[i]@) == c;
                    if i < before.len() {
                        assert(self.paths@[i] == before[i]);
                    }
                }
                assert(self.paths@[before.len() as int]@ == path@);
            }
        }
    }

    /// Whether every path of the set is in another set, or is the one to leave out.
    fn within(&self, other: &PathSet, except: Option<&str>) -> (r: bool)
        ensures
            r == (forall|c: Seq<ComponentSpec>|
                #[trigger] self@.contains(c) ==> other@.contains(c) || (except is Some
                    && components(except->0@) == c)),
    {
        let mut i: usize = 0;
        while i < self.paths.len()
            invariant
                i <= self.paths@.len(),
                forall|j: int|
                    0 <= j < i ==> {
                        let c = components(#[trigger] self.paths@[j]@);
                        other@.contains(c) || (except is Some && components(except->0@) == c)
                    },
            decreases self.paths@.len() - i,
        {
            let path = self.paths[i].as_str();
            let left_out = match except {
                Some(e) => same_path(e, path),
                None => false,
            };
            if !left_out && !other.contains(path) {
                assert(self@.contains(components(self.paths@[i as int]@)));
                return false;
            }
            i = i + 1;
        }
        true
    }

    /// Whether two sets hold the same paths.
    pub fn same_as(&self, other: &PathSet) -> (r: bool)
        ensures
            r == (self@ == other@),
    {
        let r = self.within(other, None) && other.within(self, None);
        proof {
            if r {
                assert(self@ =~= other@);
            }
        }
        r
    }

    /// Whether the set holds the paths of another, without one of them.
    pub fn same_without(&self, other: &PathSet, path: &str) -> (r: bool)
        ensures
            r == (self@ == other@.remove(components(path@))),
    {
        let r = !self.contains(path) && self.within(other, None) && other.within(self, Some(path));
        proof {
            let reduced = other@.remove(components(path@));
            if r {
                assert(self@ =~= reduced);
            } else if self@ == reduced {
                assert(!self@.contains(components(path@)));
                assert forall|c: Seq<ComponentSpec>| #[trigger] self@.contains(c) implies other@.contains(
                c) by {
                    assert(reduced.contains(c));
                }
                assert forall|c: Seq<ComponentSpec>| #[trigger] other@.contains(c) implies self@.contains(
                c) || components(path@) == c by {
                    if c != components(path@) {
                        assert(reduced.contains(c));
                    }
                }
            }
        }
        r
    }
}

// ---------------------------------------------------------------------------
// Laws of the components
// ---------------------------------------------------------------------------

/// The component that a part of a path stands for, if it stands for one.
pub open spec fn part_component(part: Seq<char>) -> Seq<ComponentSpec> {
    if part.len() == 0 || part == seq!['.'] {
        seq![]
    } else if part == seq!['.', '.'] {
        seq![ComponentSpec::Parent]
    } else {
        seq![ComponentSpec::Normal(part)]
    }
}

/// The components of a path are those before its last slash, then what stands behind that: nothing
/// for an empty part and for a `.`, the parent for `..`, a name for any other text.
pub proof fn law_components(base: Seq<char>, part: Seq<char>)
    requires
        lacks(part, '/'),
    ensures
        base.len() > 0 ==> components(base.push('/') + part) == components(base) + part_component(
            part,
        ),
        components(seq!['/'] + part) == seq![ComponentSpec::Root] + part_component(part),
        part != seq!['.'] ==> components(part) == part_component(part),
        components(seq!['.']) == seq![ComponentSpec::Current],
{
    reveal_strlit("/");
    reveal_strlit(".");
    reveal_strlit("..");
    let dot = seq!['.'];
    assert("."@ =~= dot);
    assert(".."@ =~= seq!['.', '.']);
    law_split_char(part, seq![], '/');
    lemma_one_part(part);
    assert(lacks(dot, '/'));
    law_split_char(dot, seq![], '/');
    lemma_one_part(dot);
    law_absolute_begins_with_a_slash(dot);
    assert(components(dot) =~= seq![ComponentSpec::Current]);
    law_absolute_begins_with_a_slash(part);
    if part.len() > 0 {
        assert(part[0] != '/');
    }
    assert(part != dot ==> components(part) =~= part_component(part));
    // Below the root.
    let s = seq!['/'] + part;
    law_split_char(seq![], part, '/');
    assert(Seq::<char>::empty().push('/') + part =~= s);
    assert(split_char(Seq::<char>::empty(), '/') =~= seq![seq![]]);
    lemma_one_part(seq![]);
    lemma_part_components_add(seq![seq![]], seq![part]);
    law_absolute_begins_with_a_slash(s);
    assert(components(s) =~= seq![ComponentSpec::Root] + part_component(part));
    // Below another path.
    if base.len() > 0 {
        let t = base.push('/') + part;
        law_split_char(base, part, '/');
        crate::text::lemma_split_char_nonempty(base, '/');
        lemma_part_components_add(split_char(base, '/'), seq![part]);
        law_absolute_begins_with_a_slash(t);
        law_absolute_begins_with_a_slash(base);
        assert(t[0] == base[0]);
        assert(split_char(t, '/')[0] == split_char(base, '/')[0]);
        assert(lead_components(t) == lead_components(base));
        assert(components(t) =~= components(base) + part_component(part));
    }
}

/// What a single part stands for.
proof fn lemma_one_part(part: Seq<char>)
    ensures
        part_components(seq![part]) == part_component(part),
{
    reveal_strlit(".");
    reveal_strlit("..");
    assert("."@ =~= seq!['.']);
    assert(".."@ =~= seq!['.', '.']);
    let one = seq![part];
    assert(one.drop_last() =~= seq![]);
    assert(part_components(one.drop_last()) =~= seq![]);
    assert(part_components(one) =~= part_component(part));
}

/// A path is joined to another with one slash between; one that begins with a slash stands for
/// itself.
pub proof fn law_joined_path(base: Seq<char>, path: Seq<char>)
    ensures
        path.len() > 0 && path[0] == '/' ==> joined_path(base, path) == path,
        (path.len() == 0 || path[0] != '/') && base.len() > 0 && base.last() != '/'
            ==> joined_path(base, path) == base.push('/') + path,
        (path.len() == 0 || path[0] != '/') && (base.len() == 0 || base.last() == '/')
            ==> joined_path(base, path) == base + path,
{
    reveal_strlit("/");
    law_absolute_begins_with_a_slash(path);
    assert(base.push('/') + path =~= base + "/"@ + path);
    if base.len() > 0 {
        assert("/"@.is_suffix_of(base) == (base.last() == '/')) by {
            let end = base.subrange(base.len() - 1, base.len() as int);
            assert(end.len() == 1 && end[0] == base.last());
            if base.last() == '/' {
                assert("/"@ =~= end);
            } else {
                assert("/"@[0] != end[0]);
            }
        }
    }
}

/// The name with which a path ends is its file name, slashes behind it or not.
pub proof fn law_file_name_is_the_last_name(base: Seq<char>, name: Seq<char>)
    requires
        base.len() > 0,
        name.len() > 0,
        lacks(name, '/'),
        name != seq!['.'],
        name != seq!['.', '.'],
    ensures
        file_name(base.push('/') + name) == Some(name),
        file_name((base.push('/') + name).push('/')) == Some(name),
        file_name(name) == Some(name),
{
    law_components(base, name);
    let whole = base.push('/') + name;
    law_components(whole, seq![]);
    assert(whole.push('/') + seq![] =~= whole.push('/'));
    assert(components(whole) + part_component(seq![]) =~= components(whole));
}

} // verus!
