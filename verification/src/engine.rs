//! The copy engine's decisions: what each command does to the registry and
//! which file operation it calls for.

use crate::helper::{diff_of, lemma_common_names_is, path_diff};
use crate::path::{name_stem, PathModel, SavePath};
use crate::registry::{
    distinct_paths, entry_of, find_appropriate_savedef_path, has_path, lemma_resolve_from,
    paths_of, registered, resolve, Registry,
};
use crate::save::{SaveDef, SaveModel};
use crate::text::lemma_last_index_of;
use vstd::prelude::*;

verus! {

/// A command to the engine.
pub ghost enum CmdModel {
    Watch(SaveModel),
    Unwatch(Seq<char>),
    Copy(PathModel),
    Scan,
}

/// A file operation that the engine calls for.
pub ghost enum OpModel {
    Watch(PathModel),
    Idle,
    Copy { src: PathModel, dir: PathModel, dst: PathModel },
    Suppressed(PathModel),
    Unresolved(PathModel),
    Walk(Seq<PathModel>),
}

/// Where a changed file goes: the directory to create under the sync root,
/// and the file to write in it. The directory is the sync root, the
/// specification's sync location and the folder chain between the watched
/// path and the file; the file keeps its name, with the extension set to the
/// source's.
pub open spec fn target_of(sync_dir: PathModel, def: SaveModel, src: PathModel) -> (
    PathModel,
    PathModel,
) {
    let d = diff_of(def.path, src);
    let dir = sync_dir.join(def.sync_loc).join(d.0);
    let dst = dir.join(d.1);
    (
        dir,
        match src.extension() {
            Some(e) => dst.with_extension(e),
            None => dst,
        },
    )
}

/// The registry after a command: only `Watch` changes it, and only where
/// the path is not registered yet.
pub open spec fn registry_after(reg: Seq<SaveModel>, cmd: CmdModel) -> Seq<SaveModel> {
    match cmd {
        CmdModel::Watch(def) => registered(reg, def),
        _ => reg,
    }
}

/// The file operation that a command calls for.
pub open spec fn op_of(sync_dir: PathModel, reg: Seq<SaveModel>, cmd: CmdModel) -> OpModel {
    match cmd {
        CmdModel::Watch(def) => OpModel::Watch(def.path),
        CmdModel::Unwatch(_) => OpModel::Idle,
        CmdModel::Copy(src) => match resolve(reg, src) {
            None => OpModel::Unresolved(src),
            Some(key) => {
                let def = entry_of(reg, key);
                if def.options.admits(src) {
                    let t = target_of(sync_dir, def, src);
                    OpModel::Copy { src, dir: t.0, dst: t.1 }
                } else {
                    OpModel::Suppressed(src)
                }
            },
        },
        CmdModel::Scan => OpModel::Walk(paths_of(reg)),
    }
}

/// A command to the engine: register a specification, stop watching a path,
/// copy a changed file, or scan every registered root.
#[derive(Debug, PartialEq, Eq)]
pub enum FileOpCmd {
    Watch(SaveDef),
    Unwatch(String),
    Copy(SavePath),
    Scan(),
}

impl View for FileOpCmd {
    type V = CmdModel;

    open spec fn view(&self) -> CmdModel {
        match self {
            FileOpCmd::Watch(d) => CmdModel::Watch(d@),
            FileOpCmd::Unwatch(s) => CmdModel::Unwatch(s@),
            FileOpCmd::Copy(p) => CmdModel::Copy(p@),
            FileOpCmd::Scan() => CmdModel::Scan,
        }
    }
}

/// What the caller is to do on the file system for one command.
#[derive(Debug, PartialEq, Eq)]
pub enum FileOp {
    /// Watch this path and everything below it.
    Watch(SavePath),
    /// Nothing.
    Idle,
    /// Create `dir` with its parents, then copy `src` over `dst`.
    Copy { src: SavePath, dir: SavePath, dst: SavePath },
    /// The policy keeps this file out of the mirror.
    Suppressed(SavePath),
    /// No registration governs this file; it is skipped.
    Unresolved(SavePath),
    /// Walk each of these roots and offer every regular file found.
    Walk(Vec<SavePath>),
}

/// The views of a vector of paths.
pub open spec fn paths_view(v: Seq<SavePath>) -> Seq<PathModel> {
    Seq::new(v.len(), |i: int| v[i]@)
}

impl View for FileOp {
    type V = OpModel;

    open spec fn view(&self) -> OpModel {
        match self {
            FileOp::Watch(p) => OpModel::Watch(p@),
            FileOp::Idle => OpModel::Idle,
            FileOp::Copy { src, dir, dst } => OpModel::Copy { src: src@, dir: dir@, dst: dst@ },
            FileOp::Suppressed(p) => OpModel::Suppressed(p@),
            FileOp::Unresolved(p) => OpModel::Unresolved(p@),
            FileOp::Walk(v) => OpModel::Walk(paths_view(v@)),
        }
    }
}

/// Computes where the changed file `src` goes under `sync_dir`, by the
/// specification `def` that governs it.
pub fn copy_target(sync_dir: &SavePath, def: &SaveDef, src: &SavePath) -> (r: (SavePath, SavePath))
    ensures
        (r.0@, r.1@) == target_of(sync_dir@, def@, src@),
{
    let (folder, fname) = path_diff(def.path.clone(), src.clone());
    let dir = sync_dir.join(&def.sync_loc).join(&folder);
    let mut dst = dir.join(&fname);
    match src.extension() {
        Some(e) => {
            dst.set_extension(e.as_str());
        },
        None => {},
    }
    (dir, dst)
}

/// The watcher's step. Takes one command: brings the registry up to date
/// and says which file operation is due. A request that does not resolve, or that the policy
/// suppresses, is answered as such and changes nothing.
pub fn save_watcher(sync_dir: &SavePath, save_map: &mut Registry, cmd: FileOpCmd) -> (r: FileOp)
    ensures
        distinct_paths(final(save_map)@),
        final(save_map)@ == registry_after(old(save_map)@, cmd@),
        r@ == op_of(sync_dir@, old(save_map)@, cmd@),
{
    proof {
        use_type_invariant(&*save_map);
    }
    match cmd {
        FileOpCmd::Watch(save) => {
            let p = save.path.clone();
            save_map.insert(save);
            FileOp::Watch(p)
        },
        FileOpCmd::Unwatch(_) => FileOp::Idle,
        FileOpCmd::Copy(src) => {
            let key = match find_appropriate_savedef_path(&src, save_map) {
                Ok(k) => k,
                Err(_) => {
                    return FileOp::Unresolved(src);
                },
            };
            proof {
                lemma_resolve_from(save_map@, src@, src@.names.len() as int);
            }
            match save_map.get(&key) {
                Some(save_reg) => {
                    if save_reg.options.admits(&src) {
                        let (dir, dst) = copy_target(sync_dir, save_reg, &src);
                        FileOp::Copy { src, dir, dst }
                    } else {
                        FileOp::Suppressed(src)
                    }
                },
                None => FileOp::Unresolved(src),
            }
        },
        FileOpCmd::Scan() => {
            let roots = save_map.paths();
            assert(paths_view(roots@) =~= paths_of(save_map@));
            FileOp::Walk(roots)
        },
    }
}

/// A request that fails, or any other request for a copy, leaves the
/// registry as it was, so the next request is answered as if the first had
/// never been made.
pub proof fn lemma_requests_are_independent(
    sync_dir: PathModel,
    reg: Seq<SaveModel>,
    a: PathModel,
    b: PathModel,
)
    ensures
        registry_after(reg, CmdModel::Copy(a)) == reg,
        op_of(sync_dir, registry_after(reg, CmdModel::Copy(a)), CmdModel::Copy(b)) == op_of(
            sync_dir,
            reg,
            CmdModel::Copy(b),
        ),
{
}

/// A request for a file under a registered root is never left unresolved:
/// it is copied or, by the policy of the registration that governs it,
/// suppressed.
pub proof fn lemma_request_under_root_resolves(
    sync_dir: PathModel,
    reg: Seq<SaveModel>,
    root: PathModel,
    p: PathModel,
)
    requires
        has_path(reg, root),
        root.contains_path(p),
    ensures
        resolve(reg, p).is_some(),
        !(op_of(sync_dir, reg, CmdModel::Copy(p)) is Unresolved),
{
    lemma_resolve_from(reg, p, p.names.len() as int);
    assert(p.ancestor(root.names.len() as int) == root);
}

/// The mirror keeps the structure below a watched root: a file strictly
/// under `def.path` goes to the sync root, then the sync location, then the
/// same chain of names that leads from the watched root to the file. This
/// holds for a relative sync location and a file whose name does not end in
/// a dot.
pub proof fn lemma_mirror_keeps_structure(sync_dir: PathModel, def: SaveModel, src: PathModel)
    requires
        def.path.contains_path(src),
        def.path != src,
        !def.sync_loc.rooted,
        src.extension() != Some(Seq::<char>::empty()),
    ensures
        target_of(sync_dir, def, src).1 == (PathModel {
            rooted: sync_dir.rooted,
            names: sync_dir.names + def.sync_loc.names + src.names.skip(
                def.path.names.len() as int,
            ),
        }),
{
    let root = def.path;
    let c = root.names.len() as int;
    assert(src.ancestor(c) == root);
    assert(c < src.names.len()) by {
        if c == src.names.len() {
            assert(src.names.take(c) =~= src.names);
        }
    }
    assert forall|j: int| 0 <= j < c implies root.names[j] == src.names[j] by {
        assert(src.names.take(c)[j] == src.names[j]);
    }
    lemma_common_names_is(root.names, src.names, c);
    let rest = src.names.skip(c);
    let d = diff_of(root, src);
    assert(d.0 == PathModel { rooted: false, names: rest.drop_last() });
    assert(d.1 == PathModel { rooted: false, names: seq![rest.last()] });
    let dir = sync_dir.join(def.sync_loc).join(d.0);
    let dst = dir.join(d.1);
    let want = sync_dir.names + def.sync_loc.names + rest;
    assert(dst.names =~= want);
    let name = src.names.last();
    assert(rest.last() == name);
    assert(dst.names.last() == name);
    match src.extension() {
        Some(e) => {
            lemma_last_index_of(name, '.');
            assert(e.len() > 0) by {
                if e.len() == 0 {
                    assert(e =~= Seq::<char>::empty());
                }
            }
            assert(name_stem(name) + seq!['.'] + e =~= name);
            assert(dst.names.drop_last().push(name) =~= dst.names);
        },
        None => {},
    }
}

} // verus!
