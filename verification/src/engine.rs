//! The mirror engine: the full ordered plan of one mirror run over one
//! source root.
//!
//! The caller walks the source tree (yielding every directory before its
//! contents), hands the visited entries over in order, and receives the
//! ordered list of actions to perform: create a destination directory,
//! or copy a file to its destination. A file whose extension is excluded
//! contributes no action; an entry that does not lie under the source
//! root's parent aborts the whole run.

use vstd::prelude::*;
use crate::paths::FsPath;
use crate::text::byte_views;
use crate::matcher::{extension_of, excluded_spec, extension, is_excluded, opt_view};
use crate::mapper::{mapped_dest, rooted_under, map_entry, PathMappingError};

verus! {

/// One filesystem object visited during the walk of a source root.
#[derive(Debug, Clone, PartialEq, Eq)]
pub struct WalkEntry {
    pub path: FsPath,
    pub is_dir: bool,
}

/// The views of a sequence of walk entries: (path, is-directory) pairs.
pub open spec fn walk_views(es: Seq<WalkEntry>) -> Seq<(Seq<Seq<u8>>, bool)> {
    Seq::new(es.len(), |i: int| (es[i].path@, es[i].is_dir))
}

/// One step of a mirror run, to be performed in plan order.
#[derive(Debug, Clone, PartialEq, Eq)]
pub enum Action {
    /// Create the destination directory and any missing ancestors;
    /// succeeds even when it already exists.
    CreateDir { dest: FsPath },
    /// Copy the source file's bytes to the destination path, overwriting
    /// any file already there.
    CopyFile { source: FsPath, dest: FsPath },
}

/// The view of an action: the same shape over path views.
pub enum ActionView {
    CreateDir { dest: Seq<Seq<u8>> },
    CopyFile { source: Seq<Seq<u8>>, dest: Seq<Seq<u8>> },
}

impl View for Action {
    type V = ActionView;

    open spec fn view(&self) -> ActionView {
        match self {
            Action::CreateDir { dest } => ActionView::CreateDir { dest: dest@ },
            Action::CopyFile { source, dest } => ActionView::CopyFile {
                source: source@,
                dest: dest@,
            },
        }
    }
}

/// The views of a sequence of actions.
pub open spec fn action_views(s: Seq<Action>) -> Seq<ActionView> {
    Seq::new(s.len(), |i: int| s[i]@)
}

/// The extension of the file named by the final component of `path`.
pub open spec fn file_ext(path: Seq<Seq<u8>>) -> Option<Seq<u8>> {
    if path.len() == 0 {
        None
    } else {
        extension_of(path.last())
    }
}

/// The actions one visited entry contributes: a directory is created at
/// its destination; a file is copied unless its extension is excluded.
pub open spec fn entry_actions(
    root: Seq<Seq<u8>>,
    e: (Seq<Seq<u8>>, bool),
    excludes: Seq<Seq<u8>>,
    dest_root: Seq<Seq<u8>>,
) -> Seq<ActionView> {
    let dest = mapped_dest(root, e.0, dest_root);
    if e.1 {
        seq![ActionView::CreateDir { dest }]
    } else if excluded_spec(file_ext(e.0), excludes) {
        Seq::<ActionView>::empty()
    } else {
        seq![ActionView::CopyFile { source: e.0, dest }]
    }
}

/// The whole plan of a mirror run: the entries' actions, in walk order.
pub open spec fn mirror_plan(
    root: Seq<Seq<u8>>,
    entries: Seq<(Seq<Seq<u8>>, bool)>,
    excludes: Seq<Seq<u8>>,
    dest_root: Seq<Seq<u8>>,
) -> Seq<ActionView>
    decreases entries.len(),
{
    if entries.len() == 0 {
        Seq::<ActionView>::empty()
    } else {
        mirror_plan(root, entries.drop_last(), excludes, dest_root) + entry_actions(
            root,
            entries.last(),
            excludes,
            dest_root,
        )
    }
}

/// Every visited entry lies under the source root's parent.
pub open spec fn all_rooted(root: Seq<Seq<u8>>, entries: Seq<(Seq<Seq<u8>>, bool)>) -> bool {
    forall|k: int| 0 <= k < entries.len() ==> rooted_under(root, #[trigger] entries[k].0)
}

/// The extension of the file named by a path's final component.
pub fn path_file_ext(p: &FsPath) -> (r: Option<Vec<u8>>)
    ensures
        opt_view(r) == file_ext(p@),
{
    if p.parts.len() == 0 {
        None
    } else {
        let r = extension(&p.parts[p.parts.len() - 1]);
        proof {
            assert(p@[p@.len() - 1] == p.parts@[p@.len() - 1]@);
        }
        r
    }
}

/// Computes the plan of one mirror run: for each visited entry, in order,
/// the action it contributes. Fails, with no plan at all, exactly when
/// some entry does not lie under the source root's parent.
pub fn plan_mirror(
    root: &FsPath,
    entries: &Vec<WalkEntry>,
    excludes: &Vec<Vec<u8>>,
    dest_root: &FsPath,
) -> (r: Result<Vec<Action>, PathMappingError>)
    ensures
        r is Ok <==> all_rooted(root@, walk_views(entries@)),
        r is Ok ==> action_views(r->Ok_0@) == mirror_plan(
            root@,
            walk_views(entries@),
            byte_views(excludes@),
            dest_root@,
        ),
{
    let ghost ws = walk_views(entries@);
    let ghost exs = byte_views(excludes@);
    let mut acts: Vec<Action> = Vec::new();
    let mut i: usize = 0;
    while i < entries.len()
        invariant
            i <= entries@.len(),
            ws == walk_views(entries@),
            exs == byte_views(excludes@),
            forall|k: int| 0 <= k < i ==> rooted_under(root@, #[trigger] ws[k].0),
            action_views(acts@) =~= mirror_plan(root@, ws.take(i as int), exs, dest_root@),
        decreases entries@.len() - i,
    {
        proof {
            assert(ws[i as int] == (entries@[i as int].path@, entries@[i as int].is_dir));
        }
        let mapped = map_entry(root, &entries[i].path, dest_root);
        let dest = match mapped {
            Err(e) => {
                proof {
                    assert(!rooted_under(root@, ws[i as int].0));
                }
                return Err(e);
            },
            Ok(dest) => dest,
        };
        proof {
            let prefix = ws.take(i as int);
            let next = ws.take(i + 1);
            assert(next.drop_last() =~= prefix);
            assert(next.last() == ws[i as int]);
            assert(mirror_plan(root@, next, exs, dest_root@) == mirror_plan(
                root@,
                prefix,
                exs,
                dest_root@,
            ) + entry_actions(root@, ws[i as int], exs, dest_root@));
        }
        if entries[i].is_dir {
            acts.push(Action::CreateDir { dest });
            proof {
                assert(action_views(acts@) =~= mirror_plan(root@, ws.take(i + 1), exs, dest_root@));
            }
        } else {
            let ext = path_file_ext(&entries[i].path);
            if is_excluded(&ext, excludes) {
                proof {
                    assert(action_views(acts@) =~= mirror_plan(
                        root@,
                        ws.take(i + 1),
                        exs,
                        dest_root@,
                    ));
                }
            } else {
                let source = entries[i].path.copy();
                acts.push(Action::CopyFile { source, dest });
                proof {
                    assert(action_views(acts@) =~= mirror_plan(
                        root@,
                        ws.take(i + 1),
                        exs,
                        dest_root@,
                    ));
                }
            }
        }
        i += 1;
    }
    proof {
        assert(ws.take(entries@.len() as int) =~= ws);
    }
    Ok(acts)
}

} // verus!
