//! What path normalization, the consistency check, walks along paths,
//! reference counting and the set of open files promise across calls.

use crate::filesystem::{
    checked_table, dir_time, dir_with_refcount_change, is_blank_fs, metawalk, metawalkandparent,
    same_dir_attributes, survives_fsck, walk_answer, walk_path, walk_prefix, FilesystemMetadata,
    WalkState, ROOTDIRECTORYINODE,
};
use crate::inode::{dir_entries, lookup, table_entries, Inode};
use crate::path::{
    apply_components, is_relative_path, normalized, normpath, pop_component, ComponentView, PathBuf,
};
use vstd::prelude::*;

verus! {

/// An absolute path made of names only, below the root.
pub open spec fn is_canonical(p: Seq<ComponentView>) -> bool {
    &&& p.len() >= 1
    &&& p[0] == ComponentView::RootDir
    &&& forall|i: int| 1 <= i < p.len() ==> #[trigger] p[i] is Normal
}

pub proof fn lemma_apply_keeps_canonical(base: Seq<ComponentView>, comps: Seq<ComponentView>)
    requires
        is_canonical(base),
    ensures
        is_canonical(apply_components(base, comps)),
    decreases comps.len(),
{
    if comps.len() > 0 {
        lemma_apply_keeps_canonical(base, comps.drop_last());
        let prev = apply_components(base, comps.drop_last());
        match comps.last() {
            ComponentView::Normal(name) => {
                let next = prev.push(ComponentView::Normal(name));
                assert forall|i: int| 1 <= i < next.len() implies #[trigger] next[i] is Normal by {
                    if i < prev.len() {
                        assert(next[i] == prev[i]);
                    }
                }
            },
            ComponentView::ParentDir => {
                let next = pop_component(prev);
                if prev.len() > 1 {
                    assert forall|i: int| 1 <= i < next.len() implies #[trigger] next[i] is Normal by {
                        assert(next[i] == prev[i]);
                    }
                }
            },
            _ => {},
        }
    }
}

/// Normalizing against a working directory that is absolute and made of
/// names gives a path of the same kind.
pub proof fn law_normpath_canonical(p: Seq<ComponentView>, cwd: Seq<ComponentView>)
    requires
        is_canonical(cwd),
    ensures
        is_canonical(normalized(p, cwd)),
{
    if is_relative_path(p) {
        lemma_apply_keeps_canonical(cwd, p);
    } else {
        lemma_apply_keeps_canonical(seq![ComponentView::RootDir], p);
    }
}

pub proof fn lemma_apply_canonical_onto_root(q: Seq<ComponentView>, j: int)
    requires
        is_canonical(q),
        1 <= j <= q.len(),
    ensures
        apply_components(seq![ComponentView::RootDir], q.take(j)) == q.take(j),
    decreases j,
{
    if j == 1 {
        assert(q.take(1).drop_last() =~= Seq::<ComponentView>::empty());
        assert(apply_components(seq![ComponentView::RootDir], q.take(1).drop_last()) == seq![
            ComponentView::RootDir,
        ]);
        assert(q.take(1) =~= seq![ComponentView::RootDir]);
    } else {
        lemma_apply_canonical_onto_root(q, j - 1);
        assert(q.take(j).drop_last() =~= q.take(j - 1));
        assert(q.take(j).last() == q[j - 1]);
        assert(q[j - 1] is Normal);
        assert(q.take(j) =~= q.take(j - 1).push(q[j - 1]));
    }
}

/// Normalizing a normalized path again, against any working directory,
/// changes nothing, when the first working directory was absolute and made
/// of names.
pub proof fn law_normpath_idempotent(
    p: Seq<ComponentView>,
    cwd: Seq<ComponentView>,
    cwd2: Seq<ComponentView>,
)
    requires
        is_canonical(cwd),
    ensures
        normalized(normalized(p, cwd), cwd2) == normalized(p, cwd),
{
    let q = normalized(p, cwd);
    law_normpath_canonical(p, cwd);
    assert(!is_relative_path(q));
    lemma_apply_canonical_onto_root(q, q.len() as int);
    assert(q.take(q.len() as int) =~= q);
}

/// Every inode left by the consistency check survives it, so running it
/// again changes nothing.
pub proof fn law_fsck_idempotent(t: Map<usize, Inode>)
    ensures
        forall|k: usize| #[trigger] checked_table(t).dom().contains(k) ==> survives_fsck(checked_table(t)[k]),
        checked_table(checked_table(t)) == checked_table(t),
{
    assert(checked_table(checked_table(t)) =~= checked_table(t));
}

/// Counting one more reference to the root and then one less, through the
/// path `/`, gives back the table as it was, as long as something links to
/// the root.
pub proof fn law_incref_then_decref_root(
    t: Map<usize, Inode>,
    after_incref: Map<usize, Inode>,
    after_decref: Map<usize, Inode>,
)
    requires
        t.dom().contains(ROOTDIRECTORYINODE),
        t[ROOTDIRECTORYINODE] matches Inode::Dir(d) && d.linkcount > 0,
        after_incref.dom() == t.dom(),
        forall|k: usize|
            k != ROOTDIRECTORYINODE && #[trigger] t.dom().contains(k) ==> after_incref[k] == t[k],
        dir_with_refcount_change(t[ROOTDIRECTORYINODE], after_incref[ROOTDIRECTORYINODE], 1),
        after_decref.dom() == after_incref.dom(),
        forall|k: usize|
            k != ROOTDIRECTORYINODE && #[trigger] after_incref.dom().contains(k) ==> after_decref[k]
                == after_incref[k],
        dir_with_refcount_change(after_incref[ROOTDIRECTORYINODE], after_decref[ROOTDIRECTORYINODE], -1),
    ensures
        after_decref == t,
{
    assert(after_decref[ROOTDIRECTORYINODE] == t[ROOTDIRECTORYINODE]);
    assert(after_decref =~= t);
}

/// The path `/` leads to the root directory, which has no parent.
pub proof fn law_root_path_leads_to_root(t: Map<usize, Inode>)
    ensures
        walk_answer(t, seq![ComponentView::RootDir]) == (Some(ROOTDIRECTORYINODE), Option::<usize>::None),
        walk_path(t, seq![ComponentView::RootDir]) is Running,
{
    let p = seq![ComponentView::RootDir];
    assert(p.len() == 1);
    assert(crate::filesystem::walk_prefix(t, p, 0) == WalkState::Running(Some(ROOTDIRECTORYINODE), None));
    assert(walk_path(t, seq![ComponentView::RootDir]) == WalkState::Running(
        Some(ROOTDIRECTORYINODE),
        None,
    ));
}

/// Walking a path with `/` put in front takes the same steps as walking the
/// path itself, one step later.
pub proof fn lemma_walk_prefix_under_root(t: Map<usize, Inode>, comps: Seq<ComponentView>, n: nat)
    requires
        n <= comps.len(),
    ensures
        walk_prefix(t, seq![ComponentView::RootDir] + comps, n + 1) == walk_prefix(t, comps, n),
    decreases n,
{
    let rooted = seq![ComponentView::RootDir] + comps;
    assert(rooted[0] == ComponentView::RootDir);
    assert(walk_prefix(t, rooted, 0) == WalkState::Running(Some(ROOTDIRECTORYINODE), None));
    if n > 0 {
        lemma_walk_prefix_under_root(t, comps, (n - 1) as nat);
        assert(rooted[n as int] == comps[n - 1]);
    }
}

/// A path is walked from the root whether or not it starts with `/`: a
/// relative path leads to the same inode, with the same parent, as the
/// same path under the root, and meets a missing inode exactly when that
/// one does.
pub proof fn law_relative_walk_from_root(t: Map<usize, Inode>, comps: Seq<ComponentView>)
    ensures
        walk_answer(t, seq![ComponentView::RootDir] + comps) == walk_answer(t, comps),
        walk_path(t, seq![ComponentView::RootDir] + comps) == walk_path(t, comps),
{
    let rooted = seq![ComponentView::RootDir] + comps;
    lemma_walk_prefix_under_root(t, comps, comps.len());
    assert(rooted.len() == comps.len() + 1);
}

/// Whatever `metawalkandparent` returns for a relative path, it returns for
/// the same path with `/` put in front, and it demands the same of the
/// table for both.
pub proof fn law_metawalk_relative_from_root(
    md: &FilesystemMetadata,
    relative: &PathBuf,
    rooted: &PathBuf,
    from_relative: (Option<usize>, Option<usize>),
    from_rooted: (Option<usize>, Option<usize>),
)
    requires
        rooted@ == seq![ComponentView::RootDir] + relative@,
        call_ensures(metawalkandparent, (md, relative), from_relative),
        call_ensures(metawalkandparent, (md, rooted), from_rooted),
    ensures
        from_relative == from_rooted,
        (walk_path(table_entries(md.inodetable), relative@) is Stuck) == (walk_path(
            table_entries(md.inodetable),
            rooted@,
        ) is Stuck),
{
    law_relative_walk_from_root(table_entries(md.inodetable), relative@);
}

/// What `metawalk` returns for a path is the first half of what
/// `metawalkandparent` returns for it, on the same table.
pub proof fn law_metawalk_first_half_of_calls(
    md: &FilesystemMetadata,
    path: &PathBuf,
    inode: Option<usize>,
    res: (Option<usize>, Option<usize>),
)
    requires
        call_ensures(metawalk, (md, path), inode),
        call_ensures(metawalkandparent, (md, path), res),
    ensures
        inode == res.0,
{
}

/// Two blank trees made at the same clock reading agree field by field:
/// the same counters, the same inode numbers, and root directories with
/// the same attributes, counts and entries. `init_fs_metadata` and
/// `blank_fs_init` both return such a tree.
pub proof fn law_blank_trees_agree(a: FilesystemMetadata, b: FilesystemMetadata)
    requires
        is_blank_fs(a),
        is_blank_fs(b),
        dir_time(table_entries(a.inodetable)[ROOTDIRECTORYINODE]) == dir_time(
            table_entries(b.inodetable)[ROOTDIRECTORYINODE],
        ),
    ensures
        a.nextinode == b.nextinode,
        a.dev_id == b.dev_id,
        table_entries(a.inodetable).dom() == table_entries(b.inodetable).dom(),
        table_entries(a.inodetable)[ROOTDIRECTORYINODE] matches Inode::Dir(da)
            && table_entries(b.inodetable)[ROOTDIRECTORYINODE] matches Inode::Dir(db)
            && same_dir_attributes(da, db) && da.linkcount == db.linkcount
            && da.refcount == db.refcount && dir_entries(da.filename_to_inode_dict) == dir_entries(
            db.filename_to_inode_dict,
        ),
{
}

/// What `metawalk` gives for a path is the first half of what
/// `metawalkandparent` gives for it: the two contracts, taken on the same
/// table and path, agree.
pub proof fn law_metawalk_is_first_half(
    t: Map<usize, Inode>,
    comps: Seq<ComponentView>,
    inode: Option<usize>,
    res: (Option<usize>, Option<usize>),
)
    requires
        inode == walk_answer(t, comps).0,
        res == walk_answer(t, comps),
    ensures
        inode == res.0,
{
}

/// Closing a file that was opened under a name no other file had gives
/// back the set of open names as it was.
pub proof fn law_close_undoes_open(names: Set<Seq<char>>, name: Seq<char>)
    requires
        !names.contains(name),
    ensures
        names.insert(name).remove(name) == names,
        names.insert(name).contains(name),
        !names.insert(name).remove(name).contains(name),
{
    assert(names.insert(name).remove(name) =~= names);
}

/// A `.` put anywhere into a list of components leaves what they do to a
/// base path unchanged.
pub proof fn lemma_apply_ignores_curdir(base: Seq<ComponentView>, comps: Seq<ComponentView>, i: int)
    requires
        0 <= i <= comps.len(),
    ensures
        apply_components(base, comps.insert(i, ComponentView::CurDir)) == apply_components(base, comps),
    decreases comps.len(),
{
    let with_dot = comps.insert(i, ComponentView::CurDir);
    if i == comps.len() {
        assert(with_dot.drop_last() =~= comps);
        assert(with_dot.last() == ComponentView::CurDir);
    } else {
        assert(with_dot.last() == comps.last());
        assert(with_dot.drop_last() =~= comps.drop_last().insert(i, ComponentView::CurDir));
        lemma_apply_ignores_curdir(base, comps.drop_last(), i);
    }
}

/// A `.` changes nothing: putting one in front of a relative path, or
/// after the first component of any path, gives the same normalized path
/// against any working directory.
pub proof fn law_normpath_ignores_dot(p: Seq<ComponentView>, cwd: Seq<ComponentView>, i: int)
    requires
        0 <= i <= p.len(),
        i == 0 ==> is_relative_path(p),
    ensures
        normalized(p.insert(i, ComponentView::CurDir), cwd) == normalized(p, cwd),
{
    let with_dot = p.insert(i, ComponentView::CurDir);
    if i > 0 {
        assert(with_dot[0] == p[0]);
    }
    lemma_apply_ignores_curdir(cwd, p, i);
    lemma_apply_ignores_curdir(seq![ComponentView::RootDir], p, i);
}

/// A relative path is taken from the working directory: `./name` and
/// `name` both normalize to the working directory followed by `name`.
pub proof fn law_normpath_relative_name(name: Seq<char>, cwd: Seq<ComponentView>)
    ensures
        normalized(seq![ComponentView::CurDir, ComponentView::Normal(name)], cwd) == cwd.push(
            ComponentView::Normal(name),
        ),
        normalized(seq![ComponentView::Normal(name)], cwd) == cwd.push(ComponentView::Normal(name)),
{
    let one = seq![ComponentView::Normal(name)];
    let two = seq![ComponentView::CurDir, ComponentView::Normal(name)];
    let dot = seq![ComponentView::CurDir];
    assert(one.drop_last() =~= Seq::<ComponentView>::empty());
    assert(two.drop_last() =~= dot);
    assert(dot.drop_last() =~= Seq::<ComponentView>::empty());
    assert(is_relative_path(one));
    assert(is_relative_path(two));
    assert(apply_components(cwd, Seq::<ComponentView>::empty()) == cwd);
    assert(apply_components(cwd, dot) == cwd);
    assert(apply_components(cwd, one) == cwd.push(ComponentView::Normal(name)));
    assert(apply_components(cwd, two) == cwd.push(ComponentView::Normal(name)));
}

/// The consistency check keeps, unchanged, exactly the inodes that
/// something still uses, and adds none: a file or a device stays exactly
/// when something links to it, a directory exactly when it holds an entry
/// besides `.` and `..`, and a socket never.
pub proof fn law_fsck_keeps_what_is_used(before: Map<usize, Inode>, after: Map<usize, Inode>)
    requires
        after == checked_table(before),
    ensures
        forall|k: usize| #[trigger]
            after.dom().contains(k) ==> before.dom().contains(k) && after[k] == before[k],
        forall|k: usize|
            #[trigger] before.dom().contains(k) ==> (before[k] matches Inode::File(f) ==> (
            after.dom().contains(k) <==> f.linkcount != 0)),
        forall|k: usize|
            #[trigger] before.dom().contains(k) ==> (before[k] matches Inode::CharDev(c) ==> (
            after.dom().contains(k) <==> c.linkcount != 0)),
        forall|k: usize|
            #[trigger] before.dom().contains(k) ==> (before[k] matches Inode::Dir(d) ==> (
            after.dom().contains(k) <==> d.linkcount > 2)),
        forall|k: usize|
            #[trigger] before.dom().contains(k) && before[k] is Socket ==> !after.dom().contains(k),
{
}

/// A walk that gave up answers nothing.
pub proof fn lemma_walk_returned_empty(t: Map<usize, Inode>, comps: Seq<ComponentView>, n: nat)
    requires
        n <= comps.len(),
        walk_prefix(t, comps, n) matches WalkState::Returned(a, b),
    ensures
        walk_prefix(t, comps, n) == WalkState::Returned(None, None),
    decreases n,
{
    if n > 0 {
        if !(walk_prefix(t, comps, (n - 1) as nat) is Running) {
            lemma_walk_returned_empty(t, comps, (n - 1) as nat);
        }
    }
}

/// Component `j` of `comps`, before position `n`, is a name; directory `p`
/// of the table holds `ino` under that name; and every component after it,
/// up to `n`, is a `/`.
pub open spec fn looked_up_in(
    t: Map<usize, Inode>,
    comps: Seq<ComponentView>,
    n: int,
    j: int,
    p: usize,
    ino: Option<usize>,
) -> bool {
    &&& 0 <= j < n
    &&& comps[j] is Normal
    &&& t.dom().contains(p)
    &&& t[p] is Dir
    &&& lookup(dir_entries(t[p]->Dir_0.filename_to_inode_dict), comps[j]->Normal_0) == ino
    &&& forall|k: int| j < k < n ==> comps[k] == ComponentView::RootDir
}

/// Where a walk that is still going has a parent, some component so far
/// is a name, the parent is a directory of the table whose entry for that
/// name is the inode reached, and every later component is a `/`.
pub proof fn lemma_walk_parent_holds(t: Map<usize, Inode>, comps: Seq<ComponentView>, n: nat)
    requires
        n <= comps.len(),
        walk_prefix(t, comps, n) matches WalkState::Running(ino, Some(p)),
    ensures
        exists|j: int|
            looked_up_in(
                t,
                comps,
                n as int,
                j,
                walk_prefix(t, comps, n)->Running_1->0,
                walk_prefix(t, comps, n)->Running_0,
            ),
    decreases n,
{
    let prev = walk_prefix(t, comps, (n - 1) as nat);
    if let WalkState::Running(ino0, prev0) = prev {
        match comps[n - 1] {
            ComponentView::RootDir => {
                lemma_walk_parent_holds(t, comps, (n - 1) as nat);
                let m: int = n - 1;
                let j = choose|j: int| looked_up_in(t, comps, m, j, prev0->0, ino0);
                assert(looked_up_in(t, comps, n as int, j, prev0->0, ino0));
            },
            ComponentView::Normal(f) => {
                assert(looked_up_in(t, comps, n as int, n - 1, ino0->0, walk_prefix(t, comps, n)->Running_0));
            },
            _ => {},
        }
    }
}

/// The parent that the walk along a path answers is the directory the
/// path's last name was looked up in: when the walk answers an inode and a
/// parent, the parent is a directory of the table whose entry for the
/// path's last name is that inode, and only `/` components follow that
/// name.
pub proof fn law_walk_parent_holds_child(t: Map<usize, Inode>, comps: Seq<ComponentView>, c: usize, p: usize)
    requires
        walk_answer(t, comps) == (Some(c), Some(p)),
    ensures
        exists|j: int| looked_up_in(t, comps, comps.len() as int, j, p, Some(c)),
{
    let n = comps.len();
    if walk_prefix(t, comps, n) matches WalkState::Returned(a, b) {
        lemma_walk_returned_empty(t, comps, n);
    }
    lemma_walk_parent_holds(t, comps, n);
}

/// What `metawalkandparent` answers as the parent is the directory the
/// path's last name was looked up in.
pub proof fn law_metawalkandparent_parent_holds_child(
    md: &FilesystemMetadata,
    path: &PathBuf,
    res: (Option<usize>, Option<usize>),
    c: usize,
    p: usize,
)
    requires
        call_ensures(metawalkandparent, (md, path), res),
        res == (Some(c), Some(p)),
    ensures
        exists|j: int| looked_up_in(table_entries(md.inodetable), path@, path@.len() as int, j, p, Some(c)),
{
    law_walk_parent_holds_child(table_entries(md.inodetable), path@, c, p);
}

/// `normpath` takes `./name` from the working directory: the result is the
/// working directory followed by `name`.
pub proof fn law_normpath_dot_name(origp: PathBuf, cwd: &PathBuf, newp: PathBuf, name: Seq<char>)
    requires
        origp@ == seq![ComponentView::CurDir, ComponentView::Normal(name)],
        call_ensures(normpath, (origp, cwd), newp),
    ensures
        newp@ == cwd@.push(ComponentView::Normal(name)),
{
    law_normpath_relative_name(name, cwd@);
}

} // verus!
