//! Paths as the sequence of their components, parsed the way Unix paths
//! are, and normalized against a working directory.

use vstd::prelude::*;

verus! {

/// One component of a path.
#[derive(Debug)]
pub enum Component {
    /// The leading `/` of an absolute path.
    RootDir,
    /// A leading `.` of a relative path.
    CurDir,
    /// A `..`.
    ParentDir,
    /// A name.
    Normal(String),
}

/// A component, with names as character sequences.
pub enum ComponentView {
    RootDir,
    CurDir,
    ParentDir,
    Normal(Seq<char>),
}

impl View for Component {
    type V = ComponentView;

    open spec fn view(&self) -> ComponentView {
        match self {
            Component::RootDir => ComponentView::RootDir,
            Component::CurDir => ComponentView::CurDir,
            Component::ParentDir => ComponentView::ParentDir,
            Component::Normal(name) => ComponentView::Normal(name@),
        }
    }
}

/// A path, held as its components.
#[derive(Debug)]
pub struct PathBuf {
    pub components: Vec<Component>,
}

impl View for PathBuf {
    type V = Seq<ComponentView>;

    open spec fn view(&self) -> Seq<ComponentView> {
        self.components@.map_values(|c: Component| c@)
    }
}

/// The pieces of `s` between the `/` characters (the empty ones included).
pub open spec fn split_segments(s: Seq<char>) -> Seq<Seq<char>>
    decreases s.len(),
{
    if s.len() == 0 {
        seq![Seq::<char>::empty()]
    } else {
        let prev = split_segments(s.drop_last());
        if s.last() == '/' {
            prev.push(Seq::<char>::empty())
        } else {
            prev.update(prev.len() - 1, prev.last().push(s.last()))
        }
    }
}

/// The component that a piece between separators stands for, if any:
/// empty pieces and `.` stand for none.
pub open spec fn segment_component(seg: Seq<char>) -> Seq<ComponentView> {
    if seg.len() == 0 || seg == seq!['.'] {
        Seq::empty()
    } else if seg == seq!['.', '.'] {
        seq![ComponentView::ParentDir]
    } else {
        seq![ComponentView::Normal(seg)]
    }
}

/// The components that a list of pieces stands for.
pub open spec fn segments_components(segs: Seq<Seq<char>>) -> Seq<ComponentView>
    decreases segs.len(),
{
    if segs.len() == 0 {
        Seq::empty()
    } else {
        segments_components(segs.drop_last()) + segment_component(segs.last())
    }
}

/// The component that the start of a path stands for: `/` for an absolute
/// path, `.` for a relative one that is `.` or starts with `./`.
pub open spec fn path_head(s: Seq<char>) -> Seq<ComponentView> {
    if s.len() > 0 && s[0] == '/' {
        seq![ComponentView::RootDir]
    } else if s == seq!['.'] || (s.len() >= 2 && s[0] == '.' && s[1] == '/') {
        seq![ComponentView::CurDir]
    } else {
        Seq::empty()
    }
}

/// The components of the path written `s`.
pub open spec fn parse_path(s: Seq<char>) -> Seq<ComponentView> {
    path_head(s) + segments_components(split_segments(s))
}

/// A path is relative unless it starts at the root.
pub open spec fn is_relative_path(p: Seq<ComponentView>) -> bool {
    p.len() == 0 || p[0] != ComponentView::RootDir
}

/// The path without its last component, unless that is the root or the
/// path is empty.
pub open spec fn pop_component(p: Seq<ComponentView>) -> Seq<ComponentView> {
    if p.len() > 0 && p.last() != ComponentView::RootDir {
        p.drop_last()
    } else {
        p
    }
}

/// `base` with the components of `comps` applied in turn: names are
/// appended, `..` takes the last component off, the rest is skipped.
pub open spec fn apply_components(base: Seq<ComponentView>, comps: Seq<ComponentView>) -> Seq<
    ComponentView,
>
    decreases comps.len(),
{
    if comps.len() == 0 {
        base
    } else {
        let prev = apply_components(base, comps.drop_last());
        match comps.last() {
            ComponentView::Normal(name) => prev.push(ComponentView::Normal(name)),
            ComponentView::ParentDir => pop_component(prev),
            _ => prev,
        }
    }
}

/// The normalized form of `p` against the working directory `cwd`.
pub open spec fn normalized(p: Seq<ComponentView>, cwd: Seq<ComponentView>) -> Seq<ComponentView> {
    let base = if is_relative_path(p) {
        cwd
    } else {
        seq![ComponentView::RootDir]
    };
    apply_components(base, p)
}

/// The last component of a path, when that is a name.
pub open spec fn file_name_of(p: Seq<ComponentView>) -> Option<Seq<char>> {
    if p.len() > 0 {
        match p.last() {
            ComponentView::Normal(name) => Some(name),
            _ => None,
        }
    } else {
        None
    }
}

pub proof fn lemma_split_segments_nonempty(s: Seq<char>)
    ensures
        split_segments(s).len() >= 1,
    decreases s.len(),
{
    if s.len() > 0 {
        lemma_split_segments_nonempty(s.drop_last());
    }
}

/// The views of a list of components, with one component appended.
pub proof fn lemma_views_push(v: Seq<Component>, c: Component)
    ensures
        v.push(c).map_values(|x: Component| x@) == v.map_values(|x: Component| x@).push(c@),
{
    assert(v.push(c).map_values(|x: Component| x@) =~= v.map_values(|x: Component| x@).push(c@));
}

/// Calls `String::push`: the string with `c` appended.
#[verifier::external_body]
pub(crate) fn string_push(s: &mut String, c: char)
    ensures
        final(s)@ == old(s)@.push(c),
{
    s.push(c)
}

/// A copy of a name component, or of any other component.
pub fn copy_component(c: &Component) -> (copy: Component)
    ensures
        copy@ == c@,
{
    match c {
        Component::RootDir => Component::RootDir,
        Component::CurDir => Component::CurDir,
        Component::ParentDir => Component::ParentDir,
        Component::Normal(name) => Component::Normal(name.clone()),
    }
}

impl PathBuf {
    /// A copy of the path.
    pub fn copy_path(&self) -> (copy: PathBuf)
        ensures
            copy@ == self@,
    {
        let mut components: Vec<Component> = Vec::new();
        let mut i: usize = 0;
        while i < self.components.len()
            invariant
                i <= self.components@.len(),
                components@.map_values(|c: Component| c@) == self@.take(i as int),
            decreases self.components@.len() - i,
        {
            let c = copy_component(&self.components[i]);
            proof {
                lemma_views_push(components@, c);
                assert(self@[i as int] == self.components@[i as int]@);
                assert(self@.take(i + 1) =~= self@.take(i as int).push(self@[i as int]));
            }
            components.push(c);
            i = i + 1;
        }
        proof {
            assert(self@.take(i as int) =~= self@);
        }
        PathBuf { components }
    }

    /// Whether the path does not start at the root.
    pub fn is_relative(&self) -> (relative: bool)
        ensures
            relative == is_relative_path(self@),
    {
        if self.components.len() == 0 {
            true
        } else {
            match &self.components[0] {
                Component::RootDir => false,
                _ => true,
            }
        }
    }

    /// Appends a name component.
    pub fn push_name(&mut self, name: String)
        ensures
            final(self)@ == old(self)@.push(ComponentView::Normal(name@)),
    {
        self.components.push(Component::Normal(name));
        proof {
            assert(self@ =~= old(self)@.push(ComponentView::Normal(name@)));
        }
    }

    /// Takes the last component off, unless it is the root or the path is
    /// empty; says whether it did.
    pub fn pop(&mut self) -> (popped: bool)
        ensures
            final(self)@ == pop_component(old(self)@),
            popped == (old(self)@.len() > 0 && old(self)@.last() != ComponentView::RootDir),
    {
        let len = self.components.len();
        if len == 0 {
            return false;
        }
        let is_root = match &self.components[len - 1] {
            Component::RootDir => true,
            _ => false,
        };
        if is_root {
            false
        } else {
            self.components.pop();
            proof {
                assert(self@ =~= old(self)@.drop_last());
            }
            true
        }
    }

    /// The last component, when that is a name.
    pub fn file_name(&self) -> (name: Option<&String>)
        ensures
            match name {
                Some(n) => file_name_of(self@) == Some(n@),
                None => file_name_of(self@) is None,
            },
    {
        let len = self.components.len();
        if len == 0 {
            return None;
        }
        match &self.components[len - 1] {
            Component::Normal(n) => Some(n),
            _ => None,
        }
    }
}

/// Appends the component that a piece between separators stands for.
fn push_segment(comps: &mut Vec<Component>, seg: String)
    ensures
        final(comps)@.map_values(|c: Component| c@) == old(comps)@.map_values(|c: Component| c@)
            + segment_component(seg@),
{
    let dot = String::from_str(".");
    let dotdot = String::from_str("..");
    proof {
        reveal_strlit(".");
        reveal_strlit("..");
        assert(dot@ =~= seq!['.']);
        assert(dotdot@ =~= seq!['.', '.']);
    }
    let ghost name = seg@;
    if seg.as_str().is_empty() || seg == dot {
        assert(segment_component(name) =~= Seq::<ComponentView>::empty());
        assert(comps@.map_values(|c: Component| c@) =~= old(comps)@.map_values(|c: Component| c@)
            + segment_component(name));
    } else if seg == dotdot {
        proof {
            lemma_views_push(comps@, Component::ParentDir);
        }
        comps.push(Component::ParentDir);
        assert(comps@.map_values(|c: Component| c@) =~= old(comps)@.map_values(|c: Component| c@)
            + segment_component(name));
    } else {
        proof {
            lemma_views_push(comps@, Component::Normal(seg));
        }
        comps.push(Component::Normal(seg));
        assert(comps@.map_values(|c: Component| c@) =~= old(comps)@.map_values(|c: Component| c@)
            + segment_component(name));
    }
}

/// The path that `cpath` spells.
pub fn convpath(cpath: &str) -> (path: PathBuf)
    ensures
        path@ == parse_path(cpath@),
{
    let mut comps: Vec<Component> = Vec::new();
    let mut cur: String = String::new();
    let mut c0: char = ' ';
    let mut c1: char = ' ';
    let mut seen0 = false;
    let mut seen1 = false;
    proof {
        assert(cpath@.take(0) =~= Seq::<char>::empty());
    }
    for c in it: cpath.chars()
        invariant
            it.seq() == cpath@,
            comps@.map_values(|c: Component| c@) == segments_components(
                split_segments(cpath@.take(it.index())).drop_last(),
            ),
            cur@ == split_segments(cpath@.take(it.index())).last(),
            seen0 == (it.index() >= 1),
            seen1 == (it.index() >= 2),
            seen0 ==> c0 == cpath@[0],
            seen1 ==> c1 == cpath@[1],
    {
        let ghost i = it.index();
        let ghost pre = cpath@.take(i);
        let ghost post = cpath@.take(i + 1);
        proof {
            assert(post.drop_last() =~= pre);
            assert(post.last() == c);
            lemma_split_segments_nonempty(pre);
        }
        if !seen0 {
            c0 = c;
            seen0 = true;
        } else if !seen1 {
            c1 = c;
            seen1 = true;
        }
        if c == '/' {
            let seg = cur;
            push_segment(&mut comps, seg);
            cur = String::new();
            proof {
                let segs = split_segments(pre);
                assert(split_segments(post).drop_last() =~= segs);
                assert(segs =~= segs.drop_last().push(segs.last()));
            }
        } else {
            string_push(&mut cur, c);
            proof {
                let segs = split_segments(pre);
                assert(split_segments(post).drop_last() =~= segs.drop_last());
            }
        }
    }
    let ghost all = cpath@;
    proof {
        assert(cpath@.take(cpath@.len() as int) =~= cpath@);
        lemma_split_segments_nonempty(all);
        let segs = split_segments(all);
        assert(segs =~= segs.drop_last().push(segs.last()));
    }
    push_segment(&mut comps, cur);
    let mut components: Vec<Component> = Vec::new();
    if seen0 && c0 == '/' {
        components.push(Component::RootDir);
    } else if seen0 && c0 == '.' && (!seen1 || c1 == '/') {
        components.push(Component::CurDir);
    }
    proof {
        if seen0 && c0 == '.' && !seen1 {
            assert(all =~= seq!['.']);
        }
        assert(components@.map_values(|c: Component| c@) =~= path_head(all));
    }
    components.append(&mut comps);
    let path = PathBuf { components };
    proof {
        assert(path@ =~= parse_path(all));
    }
    path
}

/// The normalized form of `origp`: relative paths are taken from `cwd`,
/// absolute ones from the root; names are appended, `..` takes the last
/// component off, other components are skipped.
pub fn normpath(origp: PathBuf, cwd: &PathBuf) -> (newp: PathBuf)
    ensures
        newp@ == normalized(origp@, cwd@),
{
    let mut newp = if origp.is_relative() {
        cwd.copy_path()
    } else {
        let mut root: Vec<Component> = Vec::new();
        root.push(Component::RootDir);
        let p = PathBuf { components: root };
        proof {
            assert(p@ =~= seq![ComponentView::RootDir]);
        }
        p
    };
    let ghost base = newp@;
    let mut i: usize = 0;
    while i < origp.components.len()
        invariant
            i <= origp.components@.len(),
            base == (if is_relative_path(origp@) {
                cwd@
            } else {
                seq![ComponentView::RootDir]
            }),
            newp@ == apply_components(base, origp@.take(i as int)),
        decreases origp.components@.len() - i,
    {
        proof {
            assert(origp@.take(i + 1).drop_last() =~= origp@.take(i as int));
        }
        match &origp.components[i] {
            Component::Normal(name) => {
                newp.push_name(name.clone());
            },
            Component::ParentDir => {
                newp.pop();
            },
            _ => {},
        }
        i = i + 1;
    }
    proof {
        assert(origp@.take(i as int) =~= origp@);
    }
    newp
}

/// Whether two paths have the same components.
pub fn paths_equal(a: &PathBuf, b: &PathBuf) -> (same: bool)
    ensures
        same == (a@ == b@),
{
    if a.components.len() != b.components.len() {
        assert(a@.len() != b@.len());
        return false;
    }
    let mut i: usize = 0;
    while i < a.components.len()
        invariant
            a.components@.len() == b.components@.len(),
            i <= a.components@.len(),
            forall|j: int| 0 <= j < i ==> a@[j] == b@[j],
        decreases a.components@.len() - i,
    {
        let same_component = match (&a.components[i], &b.components[i]) {
            (Component::RootDir, Component::RootDir) => true,
            (Component::CurDir, Component::CurDir) => true,
            (Component::ParentDir, Component::ParentDir) => true,
            (Component::Normal(x), Component::Normal(y)) => *x == *y,
            _ => false,
        };
        assert(a@[i as int] == a.components@[i as int]@);
        assert(b@[i as int] == b.components@[i as int]@);
        if !same_component {
            assert(a@[i as int] != b@[i as int]);
            return false;
        }
        i = i + 1;
    }
    assert(a@ =~= b@);
    true
}

} // verus!
