//! Watch specifications and their filetype policy.

use crate::path::{names_view, PathModel, SavePath};
use crate::text::{ends_with, is_suffix};
use vstd::prelude::*;
use vstd::string::*;

verus! {

/// A filetype policy: the extensions that pass, or the suffixes that do not.
pub ghost enum PolicyModel {
    Allowed(Seq<Seq<char>>),
    Disallowed(Seq<Seq<char>>),
}

impl PolicyModel {
    /// Whether a file at `p` passes the policy. An allow list passes the
    /// file whose extension is one of its entries, so a file without
    /// extension never passes it. A disallow list passes the file whose
    /// path text ends with none of its entries.
    pub open spec fn admits(self, p: PathModel) -> bool {
        match self {
            PolicyModel::Allowed(exts) => match p.extension() {
                Some(e) => exts.contains(e),
                None => false,
            },
            PolicyModel::Disallowed(sufs) => ends_with_none(p.text(), sufs),
        }
    }
}

/// Whether `text` ends with none of `sufs`.
pub open spec fn ends_with_none(text: Seq<char>, sufs: Seq<Seq<char>>) -> bool {
    forall|i: int| 0 <= i < sufs.len() ==> !is_suffix(text, #[trigger] sufs[i])
}

/// What a specification watches: one file, or a directory under a policy.
pub ghost enum OptionsModel {
    File,
    Dir(PolicyModel),
}

impl OptionsModel {
    /// Whether a changed file at `p` is to be copied: always for a
    /// single-file specification, by the policy for a directory.
    pub open spec fn admits(self, p: PathModel) -> bool {
        match self {
            OptionsModel::File => true,
            OptionsModel::Dir(policy) => policy.admits(p),
        }
    }
}

/// A watch specification.
pub ghost struct SaveModel {
    pub name: Seq<char>,
    pub path: PathModel,
    pub sync_loc: PathModel,
    pub options: OptionsModel,
}

/// Marks a specification that watches a single file.
#[derive(Debug, PartialEq, Eq)]
pub struct SaveFile {}

/// The filetype policy of a directory specification.
#[derive(Debug, PartialEq, Eq)]
pub enum RuleList {
    Allowed(Vec<String>),
    Disallowed(Vec<String>),
}

impl View for RuleList {
    type V = PolicyModel;

    open spec fn view(&self) -> PolicyModel {
        match self {
            RuleList::Allowed(v) => PolicyModel::Allowed(names_view(v@)),
            RuleList::Disallowed(v) => PolicyModel::Disallowed(names_view(v@)),
        }
    }
}

/// A directory specification.
#[derive(Debug, PartialEq, Eq)]
pub struct SaveDir {
    pub rule_list: RuleList,
}

impl View for SaveDir {
    type V = PolicyModel;

    open spec fn view(&self) -> PolicyModel {
        self.rule_list@
    }
}

/// File or directory.
#[derive(Debug, PartialEq, Eq)]
pub enum SaveOpts {
    File(SaveFile),
    Dir(SaveDir),
}

impl View for SaveOpts {
    type V = OptionsModel;

    open spec fn view(&self) -> OptionsModel {
        match self {
            SaveOpts::File(_) => OptionsModel::File,
            SaveOpts::Dir(d) => OptionsModel::Dir(d@),
        }
    }
}

/// A watch specification: the path to watch, where under the sync root its
/// files are mirrored, and what it lets through.
#[derive(Debug, PartialEq, Eq)]
pub struct SaveDef {
    pub name: String,
    pub path: SavePath,
    pub sync_loc: SavePath,
    pub options: SaveOpts,
}

impl View for SaveDef {
    type V = SaveModel;

    open spec fn view(&self) -> SaveModel {
        SaveModel {
            name: self.name@,
            path: self.path@,
            sync_loc: self.sync_loc@,
            options: self.options@,
        }
    }
}

/// A heading, then each rule behind `lead`.
pub open spec fn listing(heading: Seq<char>, lead: Seq<char>, rules: Seq<Seq<char>>) -> Seq<
    Seq<char>,
> {
    Seq::new(
        rules.len() + 1,
        |i: int|
            if i == 0 {
                heading
            } else {
                lead + rules[i - 1]
            },
    )
}

/// The lines that show a policy by the names of its lists.
pub open spec fn list_lines(policy: PolicyModel) -> Seq<Seq<char>> {
    match policy {
        PolicyModel::Allowed(v) => listing("allowed_filetypes"@, Seq::empty(), v),
        PolicyModel::Disallowed(v) => listing("disallowed_filetypes"@, Seq::empty(), v),
    }
}

/// The lines that show a policy as rules, each behind a tab.
pub open spec fn rule_lines(policy: PolicyModel) -> Seq<Seq<char>> {
    match policy {
        PolicyModel::Allowed(v) => listing("Allowed:"@, seq!['\t'], v),
        PolicyModel::Disallowed(v) => listing("Disallowed:"@, seq!['\t'], v),
    }
}

/// Writes a heading, then each rule behind `lead`.
fn lines(heading: &str, lead: &str, rules: &Vec<String>) -> (r: Vec<String>)
    ensures
        names_view(r@) == listing(heading@, lead@, names_view(rules@)),
{
    let mut out: Vec<String> = Vec::new();
    out.push(String::from_str(heading));
    let mut i: usize = 0;
    while i < rules.len()
        invariant
            i <= rules.len(),
            out.len() == i + 1,
            out[0]@ == heading@,
            forall|j: int| 1 <= j <= i ==> (#[trigger] out[j])@ == lead@ + rules[j - 1]@,
        decreases rules.len() - i,
    {
        let mut line = String::from_str(lead);
        line.append(rules[i].as_str());
        out.push(line);
        i += 1;
    }
    assert(names_view(out@) =~= listing(heading@, lead@, names_view(rules@)));
    out
}

impl SaveDef {
    /// The watched path as text, for the log.
    pub fn print(&self) -> (r: String)
        ensures
            r@ == self@.path.text(),
    {
        self.path.to_text()
    }
}

impl SaveDir {
    /// The policy for the log: the name of the list, then its entries.
    pub fn print(&self) -> (r: Vec<String>)
        ensures
            names_view(r@) == list_lines(self@),
    {
        proof {
            reveal_strlit("");
            assert(""@ =~= Seq::<char>::empty());
        }
        match &self.rule_list {
            RuleList::Allowed(v) => lines("allowed_filetypes", "", v),
            RuleList::Disallowed(v) => lines("disallowed_filetypes", "", v),
        }
    }

    /// The policy for the log: its kind, then each rule behind a tab.
    pub fn print_rules(&self) -> (r: Vec<String>)
        ensures
            names_view(r@) == rule_lines(self@),
    {
        proof {
            reveal_strlit("\t");
            assert("\t"@ =~= seq!['\t']);
        }
        match &self.rule_list {
            RuleList::Allowed(v) => lines("Allowed:", "\t", v),
            RuleList::Disallowed(v) => lines("Disallowed:", "\t", v),
        }
    }

    /// Tells whether a file at `p` passes this directory's policy.
    pub fn meets_rules(&self, p: &SavePath) -> (r: bool)
        ensures
            r == self@.admits(p@),
    {
        match &self.rule_list {
            RuleList::Allowed(v) => {
                let ext = match p.extension() {
                    Some(e) => e,
                    None => {
                        return false;
                    },
                };
                let mut i: usize = 0;
                while i < v.len()
                    invariant
                        i <= v.len(),
                        self@ == PolicyModel::Allowed(names_view(v@)),
                        p@.extension() == Some(ext@),
                        forall|j: int| 0 <= j < i ==> v[j]@ != ext@,
                    decreases v.len() - i,
                {
                    if v[i] == ext {
                        assert(names_view(v@)[i as int] == ext@);
                        return true;
                    }
                    i += 1;
                }
                assert forall|j: int| 0 <= j < names_view(v@).len() implies names_view(v@)[j]
                    != ext@ by {
                    assert(names_view(v@)[j] == v[j]@);
                }
                false
            },
            RuleList::Disallowed(v) => {
                let text = p.to_text();
                let mut i: usize = 0;
                while i < v.len()
                    invariant
                        i <= v.len(),
                        self@ == PolicyModel::Disallowed(names_view(v@)),
                        text@ == p@.text(),
                        forall|j: int| 0 <= j < i ==> !is_suffix(text@, v[j]@),
                    decreases v.len() - i,
                {
                    if ends_with(text.as_str(), v[i].as_str()) {
                        assert(names_view(v@)[i as int] == v[i as int]@);
                        assert(!ends_with_none(p@.text(), names_view(v@)));
                        return false;
                    }
                    i += 1;
                }
                assert(ends_with_none(p@.text(), names_view(v@))) by {
                    assert forall|j: int| 0 <= j < names_view(v@).len() implies !is_suffix(
                        p@.text(),
                        #[trigger] names_view(v@)[j],
                    ) by {
                        assert(names_view(v@)[j] == v[j]@);
                    }
                }
                true
            },
        }
    }
}

impl SaveOpts {
    /// Tells whether a changed file at `p` is to be copied.
    pub fn admits(&self, p: &SavePath) -> (r: bool)
        ensures
            r == self@.admits(p@),
    {
        match self {
            SaveOpts::Dir(d) => d.meets_rules(p),
            SaveOpts::File(_) => true,
        }
    }
}

} // verus!
