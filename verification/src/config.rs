//! Watch specifications from the entries of a descriptor.

use crate::helper::{parse_json, strip_quotes, unquoted};
use crate::json::{json_of, member_of, JsonValue};
use crate::path::{names_view, path_of, PathModel, SavePath};
use crate::save::{
    OptionsModel, PolicyModel, RuleList, SaveDef, SaveDir, SaveFile, SaveModel, SaveOpts,
};
use crate::scan::defs_view;
use crate::text::{ends_with, is_suffix};
use vstd::prelude::*;
use vstd::string::*;

verus! {

/// One entry of a descriptor's list of saves, as it was read.
pub ghost struct RawModel {
    pub name: Option<Seq<char>>,
    pub sync_folder: Option<Seq<char>>,
    pub saves_path: Option<Seq<char>>,
    pub file: Option<Seq<char>>,
    pub allowed_filetypes: Option<Seq<Seq<char>>>,
    pub disallowed_filetypes: Option<Seq<Seq<char>>>,
}

/// One entry of a descriptor's list of saves, as it was read: each field is
/// there or not.
#[derive(Debug, PartialEq, Eq)]
pub struct SaveEntry {
    pub name: Option<String>,
    pub sync_folder: Option<String>,
    pub saves_path: Option<String>,
    pub file: Option<String>,
    pub allowed_filetypes: Option<Vec<String>>,
    pub disallowed_filetypes: Option<Vec<String>>,
}

/// The view of a text that may be missing.
pub open spec fn text_view(s: Option<String>) -> Option<Seq<char>> {
    match s {
        Some(t) => Some(t@),
        None => None,
    }
}

/// The view of a list that may be missing.
pub open spec fn list_view(s: Option<Vec<String>>) -> Option<Seq<Seq<char>>> {
    match s {
        Some(v) => Some(names_view(v@)),
        None => None,
    }
}

impl View for SaveEntry {
    type V = RawModel;

    open spec fn view(&self) -> RawModel {
        RawModel {
            name: text_view(self.name),
            sync_folder: text_view(self.sync_folder),
            saves_path: text_view(self.saves_path),
            file: text_view(self.file),
            allowed_filetypes: list_view(self.allowed_filetypes),
            disallowed_filetypes: list_view(self.disallowed_filetypes),
        }
    }
}

/// Why an entry gives no watch specification.
#[derive(Clone, Copy, Debug, PartialEq, Eq, Structural)]
pub enum ConfigError {
    /// A directory entry with both an allow list and a disallow list.
    ConflictingRules,
    /// A directory entry with neither list.
    MissingRules,
    /// An entry that names neither a directory nor a file.
    MissingPath,
    /// An entry with a field of the wrong kind.
    Malformed,
}

/// Why a document gives no watch specifications at all.
#[derive(Clone, Copy, Debug, PartialEq, Eq, Structural)]
pub enum DescriptorError {
    /// The text is not JSON.
    NotJson,
    /// The document has no list of saves.
    NoSaves,
}

/// The entries of `v` that are not empty, in order.
pub open spec fn non_empty(v: Seq<Seq<char>>) -> Seq<Seq<char>>
    decreases v.len(),
{
    if v.len() == 0 {
        Seq::empty()
    } else {
        let before = non_empty(v.drop_last());
        if v.last().len() > 0 {
            before.push(v.last())
        } else {
            before
        }
    }
}

/// The label of an entry: its name without quotes, or a placeholder.
pub open spec fn label_of(e: RawModel) -> Seq<char> {
    match e.name {
        Some(n) => unquoted(n),
        None => "NO_NAME"@,
    }
}

/// The sync location of an entry: its sync folder without quotes, or the
/// empty path.
pub open spec fn sync_loc_of(e: RawModel) -> PathModel {
    match e.sync_folder {
        Some(s) => path_of(unquoted(s)),
        None => PathModel::bare(false),
    }
}

/// The watch specification that an entry describes. An entry with a saves
/// path is a directory and must carry exactly one of the two lists, whose
/// empty items do not count; any other entry must name a file.
pub open spec fn def_of(e: RawModel) -> Result<SaveModel, ConfigError> {
    match e.saves_path {
        Some(dir) => {
            let path = path_of(unquoted(dir));
            match (e.allowed_filetypes, e.disallowed_filetypes) {
                (Some(_), Some(_)) => Err(ConfigError::ConflictingRules),
                (None, None) => Err(ConfigError::MissingRules),
                (Some(a), None) => Ok(
                    SaveModel {
                        name: label_of(e),
                        path,
                        sync_loc: sync_loc_of(e),
                        options: OptionsModel::Dir(PolicyModel::Allowed(non_empty(a))),
                    },
                ),
                (None, Some(d)) => Ok(
                    SaveModel {
                        name: label_of(e),
                        path,
                        sync_loc: sync_loc_of(e),
                        options: OptionsModel::Dir(PolicyModel::Disallowed(non_empty(d))),
                    },
                ),
            }
        },
        None => match e.file {
            Some(f) => Ok(
                SaveModel {
                    name: label_of(e),
                    path: path_of(unquoted(f)),
                    sync_loc: sync_loc_of(e),
                    options: OptionsModel::File,
                },
            ),
            None => Err(ConfigError::MissingPath),
        },
    }
}

/// The text under `key`: none where the member is missing or null; an
/// error where it is anything but a text.
pub open spec fn text_member(v: JsonValue, key: Seq<char>) -> Result<
    Option<Seq<char>>,
    ConfigError,
> {
    match member_of(v, key) {
        None => Ok(None),
        Some(JsonValue::Null) => Ok(None),
        Some(JsonValue::Text(s)) => Ok(Some(s@)),
        Some(_) => Err(ConfigError::Malformed),
    }
}

/// The texts of a list whose items are all texts.
pub open spec fn texts_of(items: Seq<JsonValue>) -> Option<Seq<Seq<char>>>
    decreases items.len(),
{
    if items.len() == 0 {
        Some(Seq::empty())
    } else {
        match (texts_of(items.drop_last()), items.last()) {
            (Some(t), JsonValue::Text(s)) => Some(t.push(s@)),
            _ => None,
        }
    }
}

/// The list of texts under `key`: none where the member is missing or
/// null; an error where it is anything but a list of texts.
pub open spec fn list_member(v: JsonValue, key: Seq<char>) -> Result<
    Option<Seq<Seq<char>>>,
    ConfigError,
> {
    match member_of(v, key) {
        None => Ok(None),
        Some(JsonValue::Null) => Ok(None),
        Some(JsonValue::List(items)) => match texts_of(items@) {
            Some(t) => Ok(Some(t)),
            None => Err(ConfigError::Malformed),
        },
        Some(_) => Err(ConfigError::Malformed),
    }
}

/// The entry that one item of a descriptor's list of saves holds.
pub open spec fn raw_of(v: JsonValue) -> Result<RawModel, ConfigError> {
    match (
        text_member(v, "name"@),
        text_member(v, "sync_folder"@),
        text_member(v, "saves_path"@),
        text_member(v, "file"@),
        list_member(v, "allowed_filetypes"@),
        list_member(v, "disallowed_filetypes"@),
    ) {
        (Ok(name), Ok(sync_folder), Ok(saves_path), Ok(file), Ok(allowed), Ok(disallowed)) => Ok(
            RawModel {
                name,
                sync_folder,
                saves_path,
                file,
                allowed_filetypes: allowed,
                disallowed_filetypes: disallowed,
            },
        ),
        _ => Err(ConfigError::Malformed),
    }
}

/// The watch specification that one item of the list of saves describes.
pub open spec fn item_def(v: JsonValue) -> Result<SaveModel, ConfigError> {
    match raw_of(v) {
        Ok(e) => def_of(e),
        Err(err) => Err(err),
    }
}

/// The specifications that a list of saves gives: those of the items that
/// describe one, in order.
pub open spec fn defs_of(items: Seq<JsonValue>) -> Seq<SaveModel>
    decreases items.len(),
{
    if items.len() == 0 {
        Seq::empty()
    } else {
        let before = defs_of(items.drop_last());
        match item_def(items.last()) {
            Ok(d) => before.push(d),
            Err(_) => before,
        }
    }
}

/// The errors of a list of saves: those of the items that describe no
/// specification, in order.
pub open spec fn errors_of(items: Seq<JsonValue>) -> Seq<ConfigError>
    decreases items.len(),
{
    if items.len() == 0 {
        Seq::empty()
    } else {
        let before = errors_of(items.drop_last());
        match item_def(items.last()) {
            Ok(_) => before,
            Err(e) => before.push(e),
        }
    }
}

/// The list of saves of a descriptor.
pub open spec fn saves_of(doc: JsonValue) -> Option<Seq<JsonValue>> {
    match member_of(doc, "saves"@) {
        Some(JsonValue::List(items)) => Some(items@),
        _ => None,
    }
}

/// The sync root that the settings name.
pub open spec fn sync_dir_of(settings: JsonValue) -> Option<PathModel> {
    match member_of(settings, "sync_path"@) {
        Some(JsonValue::Text(s)) => Some(path_of(unquoted(s@))),
        _ => None,
    }
}

/// What reading a descriptor's text adds to the specifications, and which
/// errors it reports.
pub open spec fn loaded(text: Seq<char>) -> Result<
    (Seq<SaveModel>, Seq<ConfigError>),
    DescriptorError,
> {
    match json_of(text) {
        None => Err(DescriptorError::NotJson),
        Some(doc) => match saves_of(doc) {
            None => Err(DescriptorError::NoSaves),
            Some(items) => Ok((defs_of(items), errors_of(items))),
        },
    }
}

/// Copies the items of `v` that are not empty.
fn keep_non_empty(v: &Vec<String>) -> (r: Vec<String>)
    ensures
        names_view(r@) == non_empty(names_view(v@)),
{
    let mut out: Vec<String> = Vec::new();
    let mut i: usize = 0;
    assert(names_view(v@).take(0) =~= Seq::empty());
    assert(names_view(out@) =~= Seq::empty());
    while i < v.len()
        invariant
            i <= v.len(),
            names_view(out@) == non_empty(names_view(v@).take(i as int)),
        decreases v.len() - i,
    {
        let ghost cur = names_view(v@).take(i as int + 1);
        let ghost before = names_view(out@);
        proof {
            assert(cur.drop_last() =~= names_view(v@).take(i as int));
            assert(cur.last() == v[i as int]@);
        }
        if v[i].as_str().unicode_len() > 0 {
            out.push(v[i].clone());
            assert(names_view(out@) =~= before.push(v[i as int]@));
        }
        i += 1;
    }
    assert(names_view(v@).take(v.len() as int) =~= names_view(v@));
    out
}

/// Reads a path from a configured text, without the quotes around it.
fn configured_path(s: &String) -> (r: SavePath)
    ensures
        r@ == path_of(unquoted(s@)),
{
    let q = strip_quotes(s.as_str());
    SavePath::from_text(q.as_str())
}

/// Builds the watch specification that an entry describes, or says why
/// there is none.
pub fn save_def_of(e: &SaveEntry) -> (r: Result<SaveDef, ConfigError>)
    ensures
        match r {
            Ok(d) => def_of(e@) == Ok::<SaveModel, ConfigError>(d@),
            Err(err) => def_of(e@) == Err::<SaveModel, ConfigError>(err),
        },
{
    let name = match &e.name {
        Some(n) => strip_quotes(n.as_str()),
        None => String::from_str("NO_NAME"),
    };
    let sync_loc = match &e.sync_folder {
        Some(s) => configured_path(s),
        None => SavePath::new(),
    };
    match &e.saves_path {
        Some(dir) => {
            let path = configured_path(dir);
            let rule_list = match (&e.allowed_filetypes, &e.disallowed_filetypes) {
                (Some(_), Some(_)) => {
                    return Err(ConfigError::ConflictingRules);
                },
                (None, None) => {
                    return Err(ConfigError::MissingRules);
                },
                (Some(a), None) => RuleList::Allowed(keep_non_empty(a)),
                (None, Some(d)) => RuleList::Disallowed(keep_non_empty(d)),
            };
            Ok(SaveDef { name, path, sync_loc, options: SaveOpts::Dir(SaveDir { rule_list }) })
        },
        None => match &e.file {
            Some(f) => {
                let path = configured_path(f);
                Ok(SaveDef { name, path, sync_loc, options: SaveOpts::File(SaveFile {  }) })
            },
            None => Err(ConfigError::MissingPath),
        },
    }
}

/// Reads the text under `key` of an item.
fn read_text(v: &JsonValue, key: &str) -> (r: Result<Option<String>, ConfigError>)
    ensures
        match r {
            Ok(t) => text_member(*v, key@) == Ok::<Option<Seq<char>>, ConfigError>(text_view(t)),
            Err(e) => text_member(*v, key@) == Err::<Option<Seq<char>>, ConfigError>(e),
        },
{
    match v.member(key) {
        None => Ok(None),
        Some(JsonValue::Null) => Ok(None),
        Some(JsonValue::Text(s)) => Ok(Some(s.clone())),
        Some(_) => Err(ConfigError::Malformed),
    }
}

/// A list with a prefix that holds something other than a text is no list of texts.
proof fn lemma_texts_of_prefix(items: Seq<JsonValue>, n: int)
    requires
        0 <= n <= items.len(),
    ensures
        texts_of(items.take(n)).is_none() ==> texts_of(items).is_none(),
    decreases items.len() - n,
{
    if n < items.len() {
        assert(items.take(n + 1).drop_last() =~= items.take(n));
        lemma_texts_of_prefix(items, n + 1);
    } else {
        assert(items.take(n) =~= items);
    }
}

/// Reads the list of texts under `key` of an item.
fn read_list(v: &JsonValue, key: &str) -> (r: Result<Option<Vec<String>>, ConfigError>)
    ensures
        match r {
            Ok(t) => list_member(*v, key@) == Ok::<Option<Seq<Seq<char>>>, ConfigError>(
                list_view(t),
            ),
            Err(e) => list_member(*v, key@) == Err::<Option<Seq<Seq<char>>>, ConfigError>(e),
        },
{
    match v.member(key) {
        None => Ok(None),
        Some(JsonValue::Null) => Ok(None),
        Some(JsonValue::List(items)) => {
            let mut out: Vec<String> = Vec::new();
            let mut i: usize = 0;
            assert(items@.take(0) =~= Seq::empty());
            assert(names_view(out@) =~= Seq::empty());
            while i < items.len()
                invariant
                    i <= items.len(),
                    member_of(*v, key@) == Some(JsonValue::List(*items)),
                    texts_of(items@.take(i as int)) == Some(names_view(out@)),
                decreases items.len() - i,
            {
                let ghost cur = items@.take(i as int + 1);
                let ghost before = names_view(out@);
                proof {
                    assert(cur.drop_last() =~= items@.take(i as int));
                    assert(cur.last() == items@[i as int]);
                }
                match &items[i] {
                    JsonValue::Text(s) => {
                        out.push(s.clone());
                        assert(names_view(out@) =~= before.push(s@));
                    },
                    _ => {
                        proof {
                            lemma_texts_of_prefix(items@, i as int + 1);
                        }
                        return Err(ConfigError::Malformed);
                    },
                }
                i += 1;
            }
            assert(items@.take(items.len() as int) =~= items@);
            Ok(Some(out))
        },
        Some(_) => Err(ConfigError::Malformed),
    }
}

/// Reads the entry that one item of a descriptor's list of saves holds.
pub fn entry_of_json(v: &JsonValue) -> (r: Result<SaveEntry, ConfigError>)
    ensures
        match r {
            Ok(e) => raw_of(*v) == Ok::<RawModel, ConfigError>(e@),
            Err(err) => raw_of(*v) == Err::<RawModel, ConfigError>(err),
        },
{
    let name = read_text(v, "name");
    let sync_folder = read_text(v, "sync_folder");
    let saves_path = read_text(v, "saves_path");
    let file = read_text(v, "file");
    let allowed = read_list(v, "allowed_filetypes");
    let disallowed = read_list(v, "disallowed_filetypes");
    match (name, sync_folder, saves_path, file, allowed, disallowed) {
        (
            Ok(name),
            Ok(sync_folder),
            Ok(saves_path),
            Ok(file),
            Ok(allowed_filetypes),
            Ok(disallowed_filetypes),
        ) => Ok(
            SaveEntry {
                name,
                sync_folder,
                saves_path,
                file,
                allowed_filetypes,
                disallowed_filetypes,
            },
        ),
        _ => Err(ConfigError::Malformed),
    }
}

/// Builds the watch specification that one item of the list of saves
/// describes, or says why there is none.
pub fn save_def_of_json(v: &JsonValue) -> (r: Result<SaveDef, ConfigError>)
    ensures
        match r {
            Ok(d) => item_def(*v) == Ok::<SaveModel, ConfigError>(d@),
            Err(err) => item_def(*v) == Err::<SaveModel, ConfigError>(err),
        },
{
    match entry_of_json(v) {
        Ok(e) => save_def_of(&e),
        Err(err) => Err(err),
    }
}

/// Adds to `save_accu` the specification of each item of the descriptor's
/// list of saves that describes one, in order, and returns the errors of
/// the others: a bad item is dropped and does not stop the rest. A
/// document without a list of saves is refused and adds nothing.
pub fn load_saves(doc: &JsonValue, save_accu: &mut Vec<SaveDef>) -> (r: Result<
    Vec<ConfigError>,
    DescriptorError,
>)
    ensures
        match r {
            Ok(errors) => {
                &&& saves_of(*doc).is_some()
                &&& defs_view(final(save_accu)@) == defs_view(old(save_accu)@) + defs_of(
                    saves_of(*doc).unwrap(),
                )
                &&& errors@ == errors_of(saves_of(*doc).unwrap())
            },
            Err(e) => {
                &&& saves_of(*doc).is_none()
                &&& e == DescriptorError::NoSaves
                &&& final(save_accu)@ == old(save_accu)@
            },
        },
{
    let items = match doc.member("saves") {
        Some(JsonValue::List(items)) => items,
        _ => {
            return Err(DescriptorError::NoSaves);
        },
    };
    let ghost start = defs_view(save_accu@);
    let mut errors: Vec<ConfigError> = Vec::new();
    let mut i: usize = 0;
    assert(items@.take(0) =~= Seq::empty());
    assert(defs_view(save_accu@) =~= start + Seq::<SaveModel>::empty());
    while i < items.len()
        invariant
            i <= items.len(),
            defs_view(save_accu@) == start + defs_of(items@.take(i as int)),
            errors@ == errors_of(items@.take(i as int)),
        decreases items.len() - i,
    {
        let ghost cur = items@.take(i as int + 1);
        let ghost before = defs_view(save_accu@);
        proof {
            assert(cur.drop_last() =~= items@.take(i as int));
            assert(cur.last() == items@[i as int]);
        }
        match save_def_of_json(&items[i]) {
            Ok(d) => {
                let ghost dv = d@;
                save_accu.push(d);
                assert(defs_view(save_accu@) =~= before.push(dv));
                assert(defs_view(save_accu@) =~= start + defs_of(cur));
            },
            Err(err) => {
                errors.push(err);
            },
        }
        i += 1;
    }
    assert(items@.take(items.len() as int) =~= items@);
    Ok(errors)
}

/// Reads a descriptor from its text and adds its watch specifications to
/// `save_accu`. Bad items are dropped and their errors returned; a text
/// that is not JSON, or holds no list of saves, is refused and adds nothing.
pub fn parse_save_json(text: &str, save_accu: &mut Vec<SaveDef>) -> (r: Result<
    Vec<ConfigError>,
    DescriptorError,
>)
    ensures
        match r {
            Ok(errors) => {
                &&& loaded(text@).is_ok()
                &&& errors@ == loaded(text@).unwrap().1
                &&& defs_view(final(save_accu)@) == defs_view(old(save_accu)@) + loaded(
                    text@,
                ).unwrap().0
            },
            Err(e) => {
                &&& loaded(text@) == Err::<(Seq<SaveModel>, Seq<ConfigError>), DescriptorError>(e)
                &&& final(save_accu)@ == old(save_accu)@
            },
        },
{
    match parse_json(text) {
        Ok(doc) => load_saves(&doc, save_accu),
        Err(_) => Err(DescriptorError::NotJson),
    }
}

/// Reads the sync root from the settings document.
pub fn sync_dir(settings: &JsonValue) -> (r: Option<SavePath>)
    ensures
        match r {
            Some(p) => sync_dir_of(*settings) == Some(p@),
            None => sync_dir_of(*settings).is_none(),
        },
{
    match settings.member("sync_path") {
        Some(JsonValue::Text(s)) => Some(configured_path(s)),
        _ => None,
    }
}

/// Tells whether a file of this name is a descriptor: its name ends in `.json`.
pub fn is_descriptor(file_name: &str) -> (r: bool)
    ensures
        r == is_suffix(file_name@, ".json"@),
{
    ends_with(file_name, ".json")
}

/// A file found under the tracker directory: its name and its text.
#[derive(Debug, PartialEq, Eq)]
pub struct DescriptorFile {
    pub name: String,
    pub text: String,
}

/// What the descriptors under the tracker directory give: the watch
/// specifications of all of them, the errors of the items that were
/// dropped, and the names of the descriptors that were refused as a whole.
#[derive(Debug, PartialEq, Eq)]
pub struct Descriptors {
    pub saves: Vec<SaveDef>,
    pub errors: Vec<ConfigError>,
    pub refused: Vec<String>,
}

/// Whether a file of this name is a descriptor.
pub open spec fn descriptor_name(name: Seq<char>) -> bool {
    is_suffix(name, ".json"@)
}

/// The specifications of the descriptors among `files`, merged in order.
pub open spec fn merged_defs(files: Seq<DescriptorFile>) -> Seq<SaveModel>
    decreases files.len(),
{
    if files.len() == 0 {
        Seq::empty()
    } else {
        let before = merged_defs(files.drop_last());
        let f = files.last();
        if descriptor_name(f.name@) && loaded(f.text@).is_ok() {
            before + loaded(f.text@).unwrap().0
        } else {
            before
        }
    }
}

/// The errors of the dropped items of the descriptors among `files`, in order.
pub open spec fn merged_errors(files: Seq<DescriptorFile>) -> Seq<ConfigError>
    decreases files.len(),
{
    if files.len() == 0 {
        Seq::empty()
    } else {
        let before = merged_errors(files.drop_last());
        let f = files.last();
        if descriptor_name(f.name@) && loaded(f.text@).is_ok() {
            before + loaded(f.text@).unwrap().1
        } else {
            before
        }
    }
}

/// The names of the descriptors among `files` that were refused, in order.
pub open spec fn refused_names(files: Seq<DescriptorFile>) -> Seq<Seq<char>>
    decreases files.len(),
{
    if files.len() == 0 {
        Seq::empty()
    } else {
        let before = refused_names(files.drop_last());
        let f = files.last();
        if descriptor_name(f.name@) && loaded(f.text@).is_err() {
            before.push(f.name@)
        } else {
            before
        }
    }
}

/// Reads every descriptor among `files`, those whose name ends in `.json`,
/// and merges their watch specifications into one list. A descriptor that
/// cannot be read is refused and does not stop the others.
pub fn get_json_settings_descriptors(files: &Vec<DescriptorFile>) -> (r: Descriptors)
    ensures
        defs_view(r.saves@) == merged_defs(files@),
        r.errors@ == merged_errors(files@),
        names_view(r.refused@) == refused_names(files@),
{
    let mut save_accu: Vec<SaveDef> = Vec::new();
    let mut errors: Vec<ConfigError> = Vec::new();
    let mut refused: Vec<String> = Vec::new();
    let mut i: usize = 0;
    assert(files@.take(0) =~= Seq::empty());
    assert(defs_view(save_accu@) =~= Seq::empty());
    assert(names_view(refused@) =~= Seq::empty());
    while i < files.len()
        invariant
            i <= files.len(),
            defs_view(save_accu@) == merged_defs(files@.take(i as int)),
            errors@ == merged_errors(files@.take(i as int)),
            names_view(refused@) == refused_names(files@.take(i as int)),
        decreases files.len() - i,
    {
        let ghost cur = files@.take(i as int + 1);
        proof {
            assert(cur.drop_last() =~= files@.take(i as int));
            assert(cur.last() == files@[i as int]);
        }
        let f = &files[i];
        if is_descriptor(f.name.as_str()) {
            match parse_save_json(f.text.as_str(), &mut save_accu) {
                Ok(mut dropped) => {
                    errors.append(&mut dropped);
                },
                Err(_) => {
                    let ghost before = names_view(refused@);
                    refused.push(f.name.clone());
                    assert(names_view(refused@) =~= before.push(f.name@));
                },
            }
        }
        i += 1;
    }
    assert(files@.take(files.len() as int) =~= files@);
    Descriptors { saves: save_accu, errors, refused }
}

} // verus!
