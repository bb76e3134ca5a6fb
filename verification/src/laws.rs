//! Properties of a whole mirror run, proved over the plan the engine
//! computes: directories are created before the files inside them, and
//! running the same plan twice leaves the destination exactly as running
//! it once.

use vstd::prelude::*;
use crate::engine::{ActionView, mirror_plan, entry_actions, all_rooted};
use crate::mapper::{mapped_dest, parent_len, rooted_under};

verus! {

/// The destination path an action writes.
pub open spec fn action_dest(a: ActionView) -> Seq<Seq<u8>> {
    match a {
        ActionView::CreateDir { dest } => dest,
        ActionView::CopyFile { source, dest } => dest,
    }
}

/// Every file copy whose destination lies below a directory of the plan
/// is preceded by the creation of that directory. Destinations directly
/// under the destination root need no creation: the root itself exists.
pub open spec fn dirs_before_files(plan: Seq<ActionView>, dest_root: Seq<Seq<u8>>) -> bool {
    forall|i: int|
        0 <= i < plan.len() && plan[i] is CopyFile && action_dest(plan[i]).len() > dest_root.len()
            + 1 ==> exists|j: int|
            0 <= j < i && plan[j] == (ActionView::CreateDir {
                dest: action_dest(plan[i]).drop_last(),
            })
}

/// A walk yields every directory before anything inside it: each entry
/// strictly below the source root is preceded by its parent directory.
pub open spec fn walk_ordered(root: Seq<Seq<u8>>, entries: Seq<(Seq<Seq<u8>>, bool)>) -> bool {
    forall|k: int|
        0 <= k < entries.len() && #[trigger] entries[k].0.len() > root.len() ==> exists|j: int|
            0 <= j < k && entries[j].1 && entries[j].0 == entries[k].0.drop_last()
}

proof fn lemma_mapped_dest_parent(root: Seq<Seq<u8>>, path: Seq<Seq<u8>>, dest_root: Seq<Seq<u8>>)
    requires
        path.len() >= parent_len(root) + 2,
    ensures
        mapped_dest(root, path, dest_root).drop_last() =~= mapped_dest(
            root,
            path.drop_last(),
            dest_root,
        ),
{
    assert(path.drop_last().skip(parent_len(root)) =~= path.skip(parent_len(root)).drop_last());
}

proof fn lemma_dir_create_in_plan(
    root: Seq<Seq<u8>>,
    entries: Seq<(Seq<Seq<u8>>, bool)>,
    excludes: Seq<Seq<u8>>,
    dest_root: Seq<Seq<u8>>,
    k: int,
)
    requires
        0 <= k < entries.len(),
        entries[k].1,
    ensures
        exists|a: int|
            0 <= a < mirror_plan(root, entries, excludes, dest_root).len() && mirror_plan(
                root,
                entries,
                excludes,
                dest_root,
            )[a] == (ActionView::CreateDir { dest: mapped_dest(root, entries[k].0, dest_root) }),
    decreases entries.len(),
{
    let plan = mirror_plan(root, entries, excludes, dest_root);
    let prefix_plan = mirror_plan(root, entries.drop_last(), excludes, dest_root);
    if k == entries.len() - 1 {
        let a = prefix_plan.len() as int;
        assert(plan[a] == (ActionView::CreateDir {
            dest: mapped_dest(root, entries[k].0, dest_root),
        }));
    } else {
        lemma_dir_create_in_plan(root, entries.drop_last(), excludes, dest_root, k);
        let a = choose|a: int|
            0 <= a < prefix_plan.len() && prefix_plan[a] == (ActionView::CreateDir {
                dest: mapped_dest(root, entries.drop_last()[k].0, dest_root),
            });
        assert(plan[a] == prefix_plan[a]);
        assert(entries.drop_last()[k] == entries[k]);
    }
}

/// Directory-before-file ordering: over any walk that yields a directory
/// before its contents, the computed plan creates every file's
/// destination directory before the file is copied there.
pub proof fn lemma_plan_dirs_before_files(
    root: Seq<Seq<u8>>,
    entries: Seq<(Seq<Seq<u8>>, bool)>,
    excludes: Seq<Seq<u8>>,
    dest_root: Seq<Seq<u8>>,
)
    requires
        root.len() > 0,
        all_rooted(root, entries),
        walk_ordered(root, entries),
    ensures
        dirs_before_files(mirror_plan(root, entries, excludes, dest_root), dest_root),
    decreases entries.len(),
{
    let plan = mirror_plan(root, entries, excludes, dest_root);
    if entries.len() == 0 {
    } else {
        let dl = entries.drop_last();
        let prefix_plan = mirror_plan(root, dl, excludes, dest_root);
        let tail = entry_actions(root, entries.last(), excludes, dest_root);
        assert forall|k: int| 0 <= k < dl.len() implies rooted_under(root, #[trigger] dl[k].0) by {
            assert(dl[k] == entries[k]);
        }
        assert forall|k: int|
            0 <= k < dl.len() && #[trigger] dl[k].0.len() > root.len() implies exists|j: int|
                0 <= j < k && dl[j].1 && dl[j].0 == dl[k].0.drop_last() by {
            assert(dl[k] == entries[k]);
            let j = choose|j: int|
                0 <= j < k && entries[j].1 && entries[j].0 == entries[k].0.drop_last();
            assert(dl[j] == entries[j]);
        }
        lemma_plan_dirs_before_files(root, dl, excludes, dest_root);
        assert forall|i: int|
            0 <= i < plan.len() && plan[i] is CopyFile && action_dest(plan[i]).len()
                > dest_root.len() + 1 implies exists|j: int|
                0 <= j < i && plan[j] == (ActionView::CreateDir {
                    dest: action_dest(plan[i]).drop_last(),
                }) by {
            if i < prefix_plan.len() {
                assert(plan[i] == prefix_plan[i]);
                let j = choose|j: int|
                    0 <= j < i && prefix_plan[j] == (ActionView::CreateDir {
                        dest: action_dest(prefix_plan[i]).drop_last(),
                    });
                assert(plan[j] == prefix_plan[j]);
            } else {
                // The copy is the final entry's own action.
                let e = entries.last();
                assert(plan[i] == tail[i - prefix_plan.len()]);
                assert(rooted_under(root, entries[entries.len() - 1].0));
                assert(e.0.len() > root.len());
                let j0 = choose|j0: int|
                    0 <= j0 < entries.len() - 1 && entries[j0].1 && entries[j0].0
                        == e.0.drop_last();
                assert(dl[j0] == entries[j0]);
                lemma_dir_create_in_plan(root, dl, excludes, dest_root, j0);
                let a = choose|a: int|
                    0 <= a < prefix_plan.len() && prefix_plan[a] == (ActionView::CreateDir {
                        dest: mapped_dest(root, dl[j0].0, dest_root),
                    });
                lemma_mapped_dest_parent(root, e.0, dest_root);
                assert(plan[a] == prefix_plan[a]);
            }
        }
    }
}

/// The destination as the model sees it: each written path is a
/// directory, or a file holding the bytes of the source path it was
/// copied from.
pub enum Node {
    Dir,
    FileFrom(Seq<Seq<u8>>),
}

/// One action applied to the modelled destination.
pub open spec fn apply_action(fs: Map<Seq<Seq<u8>>, Node>, a: ActionView) -> Map<
    Seq<Seq<u8>>,
    Node,
> {
    match a {
        ActionView::CreateDir { dest } => fs.insert(dest, Node::Dir),
        ActionView::CopyFile { source, dest } => fs.insert(dest, Node::FileFrom(source)),
    }
}

/// A whole plan applied to the modelled destination, in order.
pub open spec fn apply_plan(fs: Map<Seq<Seq<u8>>, Node>, plan: Seq<ActionView>) -> Map<
    Seq<Seq<u8>>,
    Node,
>
    decreases plan.len(),
{
    if plan.len() == 0 {
        fs
    } else {
        apply_action(apply_plan(fs, plan.drop_last()), plan.last())
    }
}

proof fn lemma_apply_plan_union(fs: Map<Seq<Seq<u8>>, Node>, plan: Seq<ActionView>)
    ensures
        apply_plan(fs, plan) =~= fs.union_prefer_right(
            apply_plan(Map::<Seq<Seq<u8>>, Node>::empty(), plan),
        ),
    decreases plan.len(),
{
    if plan.len() == 0 {
    } else {
        lemma_apply_plan_union(fs, plan.drop_last());
    }
}

/// Idempotence: applying the same plan twice leaves the destination
/// exactly as applying it once. With unchanged sources, each copied
/// file's bytes and each created directory come out the same, so a
/// second mirror run with no clean pass changes nothing.
pub proof fn lemma_apply_plan_idempotent(fs: Map<Seq<Seq<u8>>, Node>, plan: Seq<ActionView>)
    ensures
        apply_plan(apply_plan(fs, plan), plan) == apply_plan(fs, plan),
{
    let w = apply_plan(Map::<Seq<Seq<u8>>, Node>::empty(), plan);
    lemma_apply_plan_union(fs, plan);
    lemma_apply_plan_union(fs.union_prefer_right(w), plan);
    assert(fs.union_prefer_right(w).union_prefer_right(w) =~= fs.union_prefer_right(w));
}

/// Idempotence of mirroring, stated of the engine's own plan.
pub proof fn lemma_mirror_idempotent(
    root: Seq<Seq<u8>>,
    entries: Seq<(Seq<Seq<u8>>, bool)>,
    excludes: Seq<Seq<u8>>,
    dest_root: Seq<Seq<u8>>,
    fs: Map<Seq<Seq<u8>>, Node>,
)
    ensures
        apply_plan(
            apply_plan(fs, mirror_plan(root, entries, excludes, dest_root)),
            mirror_plan(root, entries, excludes, dest_root),
        ) == apply_plan(fs, mirror_plan(root, entries, excludes, dest_root)),
{
    lemma_apply_plan_idempotent(fs, mirror_plan(root, entries, excludes, dest_root));
}

} // verus!
