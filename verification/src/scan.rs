//! The scan trigger and the change detector: both turn what was seen on the
//! file system into commands for the engine.

use crate::engine::{CmdModel, FileOpCmd};
use crate::path::{PathModel, SavePath};
use crate::save::{SaveDef, SaveModel};
use crate::text::{trim, trim_blank};
use vstd::prelude::*;
use vstd::string::*;

verus! {

/// One entry met while walking a registered root.
pub ghost struct EntryModel {
    pub path: PathModel,
    pub is_file: bool,
}

/// One entry met while walking a registered root: its path, and whether it
/// is a regular file.
#[derive(Debug, PartialEq, Eq)]
pub struct ScanEntry {
    pub path: SavePath,
    pub is_file: bool,
}

impl View for ScanEntry {
    type V = EntryModel;

    open spec fn view(&self) -> EntryModel {
        EntryModel { path: self.path@, is_file: self.is_file }
    }
}

/// The views of a vector of entries.
pub open spec fn entries_view(v: Seq<ScanEntry>) -> Seq<EntryModel> {
    Seq::new(v.len(), |i: int| v[i]@)
}

/// The views of a vector of commands.
pub open spec fn cmds_view(v: Seq<FileOpCmd>) -> Seq<CmdModel> {
    Seq::new(v.len(), |i: int| v[i]@)
}

/// The copy requests of a walk: one for each regular file, in the order met.
pub open spec fn requests_of(entries: Seq<EntryModel>) -> Seq<CmdModel>
    decreases entries.len(),
{
    if entries.len() == 0 {
        Seq::empty()
    } else {
        let before = requests_of(entries.drop_last());
        if entries.last().is_file {
            before.push(CmdModel::Copy(entries.last().path))
        } else {
            before
        }
    }
}

/// How many of the entries are regular files.
pub open spec fn file_count(entries: Seq<EntryModel>) -> nat
    decreases entries.len(),
{
    if entries.len() == 0 {
        0
    } else {
        file_count(entries.drop_last()) + if entries.last().is_file {
            1nat
        } else {
            0nat
        }
    }
}

/// A scan is complete: it makes exactly as many copy requests as there are
/// regular files, and every regular file met is among them.
pub proof fn lemma_scan_complete(entries: Seq<EntryModel>)
    ensures
        requests_of(entries).len() == file_count(entries),
        forall|i: int|
            0 <= i < entries.len() && (#[trigger] entries[i]).is_file ==> requests_of(
                entries,
            ).contains(CmdModel::Copy(entries[i].path)),
    decreases entries.len(),
{
    if entries.len() > 0 {
        let front = entries.drop_last();
        lemma_scan_complete(front);
        let all = requests_of(entries);
        assert forall|i: int| 0 <= i < entries.len() && (#[trigger] entries[i]).is_file implies all.contains(
            CmdModel::Copy(entries[i].path),
        ) by {
            if i < entries.len() - 1 {
                assert(front[i] == entries[i]);
                let c = CmdModel::Copy(entries[i].path);
                let k = choose|k: int| 0 <= k < requests_of(front).len() && requests_of(front)[k] == c;
                assert(all[k] == c);
            } else {
                assert(all[all.len() - 1] == CmdModel::Copy(entries[i].path));
            }
        }
    }
}

/// Where nothing but regular files is met, the requests are the files, one for one.
pub proof fn lemma_scan_of_files(entries: Seq<EntryModel>)
    requires
        forall|i: int| 0 <= i < entries.len() ==> (#[trigger] entries[i]).is_file,
    ensures
        requests_of(entries).len() == entries.len(),
        forall|i: int|
            0 <= i < entries.len() ==> #[trigger] requests_of(entries)[i] == CmdModel::Copy(
                entries[i].path,
            ),
    decreases entries.len(),
{
    if entries.len() > 0 {
        let front = entries.drop_last();
        assert forall|i: int| 0 <= i < front.len() implies (#[trigger] front[i]).is_file by {
            assert(front[i] == entries[i]);
        }
        lemma_scan_of_files(front);
        assert forall|i: int| 0 <= i < entries.len() implies #[trigger] requests_of(entries)[i]
            == CmdModel::Copy(entries[i].path) by {
            if i < front.len() {
                assert(front[i] == entries[i]);
                assert(requests_of(entries)[i] == requests_of(front)[i]);
            }
        }
    }
}

/// Makes the copy requests of a walk: one for each regular file among
/// `entries`, in order.
pub fn scan_requests(entries: &Vec<ScanEntry>) -> (r: Vec<FileOpCmd>)
    ensures
        cmds_view(r@) == requests_of(entries_view(entries@)),
{
    let mut out: Vec<FileOpCmd> = Vec::new();
    let mut i: usize = 0;
    assert(entries_view(entries@).take(0) =~= Seq::empty());
    assert(cmds_view(out@) =~= Seq::empty());
    while i < entries.len()
        invariant
            i <= entries.len(),
            cmds_view(out@) == requests_of(entries_view(entries@).take(i as int)),
        decreases entries.len() - i,
    {
        let ghost cur = entries_view(entries@).take(i as int + 1);
        let ghost before = cmds_view(out@);
        proof {
            assert(cur.drop_last() =~= entries_view(entries@).take(i as int));
            assert(cur.last() == entries[i as int]@);
        }
        if entries[i].is_file {
            let cmd = FileOpCmd::Copy(entries[i].path.clone());
            out.push(cmd);
            assert(cmds_view(out@) =~= before.push(CmdModel::Copy(entries[i as int]@.path)));
        }
        i += 1;
    }
    assert(entries_view(entries@).take(entries.len() as int) =~= entries_view(entries@));
    out
}

/// The views of a vector of specifications.
pub open spec fn defs_view(v: Seq<SaveDef>) -> Seq<SaveModel> {
    Seq::new(v.len(), |i: int| v[i]@)
}

/// Makes the commands that register `saves`: one `Watch` for each, in order.
pub fn find_json_settings(saves: Vec<SaveDef>) -> (r: Vec<FileOpCmd>)
    ensures
        r@.len() == saves@.len(),
        forall|i: int| 0 <= i < r@.len() ==> (#[trigger] r@[i])@ == CmdModel::Watch(saves@[i]@),
{
    let mut saves = saves;
    let ghost all = saves@;
    let mut out: Vec<FileOpCmd> = Vec::new();
    while saves.len() > 0
        invariant
            out@.len() + saves@.len() == all.len(),
            forall|i: int| 0 <= i < out@.len() ==> (#[trigger] out@[i])@ == CmdModel::Watch(all[i]@),
            forall|j: int| 0 <= j < saves@.len() ==> saves@[j] == all[out@.len() + j],
        decreases saves.len(),
    {
        let e = saves.remove(0);
        out.push(FileOpCmd::Watch(e));
    }
    out
}

/// A change that the notification layer reports.
#[derive(Debug, PartialEq, Eq)]
pub enum ChangeEvent {
    NoticeWrite(SavePath),
    NoticeRemove(SavePath),
    Create(SavePath),
    Write(SavePath),
    Chmod(SavePath),
    Remove(SavePath),
    Rename(SavePath, SavePath),
    Rescan,
    Error,
}

/// A change that the notification layer reports.
pub ghost enum EventModel {
    NoticeWrite(PathModel),
    NoticeRemove(PathModel),
    Create(PathModel),
    Write(PathModel),
    Chmod(PathModel),
    Remove(PathModel),
    Rename(PathModel, PathModel),
    Rescan,
    Error,
}

impl View for ChangeEvent {
    type V = EventModel;

    open spec fn view(&self) -> EventModel {
        match self {
            ChangeEvent::NoticeWrite(p) => EventModel::NoticeWrite(p@),
            ChangeEvent::NoticeRemove(p) => EventModel::NoticeRemove(p@),
            ChangeEvent::Create(p) => EventModel::Create(p@),
            ChangeEvent::Write(p) => EventModel::Write(p@),
            ChangeEvent::Chmod(p) => EventModel::Chmod(p@),
            ChangeEvent::Remove(p) => EventModel::Remove(p@),
            ChangeEvent::Rename(a, b) => EventModel::Rename(a@, b@),
            ChangeEvent::Rescan => EventModel::Rescan,
            ChangeEvent::Error => EventModel::Error,
        }
    }
}

/// The path to copy for an event: that of a write, a permission change or a
/// creation. Removals, renames and notices call for nothing.
pub open spec fn request_of(event: EventModel) -> Option<PathModel> {
    match event {
        EventModel::Write(p) => Some(p),
        EventModel::Chmod(p) => Some(p),
        EventModel::Create(p) => Some(p),
        _ => None,
    }
}

/// Turns one reported change into the command it calls for, if any.
pub fn save_scanner(event: ChangeEvent) -> (r: Option<FileOpCmd>)
    ensures
        match r {
            Some(cmd) => request_of(event@) == Some(cmd@->Copy_0) && cmd@ is Copy,
            None => request_of(event@).is_none(),
        },
{
    match event {
        ChangeEvent::Write(p) => Some(FileOpCmd::Copy(p)),
        ChangeEvent::Chmod(p) => Some(FileOpCmd::Copy(p)),
        ChangeEvent::Create(p) => Some(FileOpCmd::Copy(p)),
        _ => None,
    }
}

/// Reads one line that the user entered: `s`, with or without white space
/// around it, asks for a scan; any other line asks for nothing.
pub fn interactive(input: &str) -> (r: Option<FileOpCmd>)
    ensures
        match r {
            Some(cmd) => cmd@ == CmdModel::Scan && trim_blank(input@) == seq!['s'],
            None => trim_blank(input@) != seq!['s'],
        },
{
    let line = trim(input);
    let t = line.as_str();
    if t.unicode_len() == 1 && t.get_char(0) == 's' {
        assert(t@ =~= seq!['s']);
        Some(FileOpCmd::Scan())
    } else {
        proof {
            if t@ == seq!['s'] {
                assert(t@.len() == 1 && t@[0] == 's');
            }
        }
        None
    }
}

} // verus!
