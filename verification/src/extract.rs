//! Unpacking an archive that holds one top folder: what to do with each
//! entry of the stream, in the order in which the stream yields them.
//!
//! The archive names its own top folder. The first entry sets it, and every
//! later entry is placed by its path below that folder. The caller reads the
//! stream and writes the files; what is decided here is where each entry goes
//! and when the archive has to be given up.

use vstd::prelude::*;
use vstd::string::*;
use crate::text::{starts_with, to_chars};

verus! {

/// Why an archive could not be unpacked.
#[derive(Debug, Clone, PartialEq, Eq)]
pub enum ExtractError {
    /// The archive does not begin with its top folder, or holds an entry
    /// outside that folder.
    MalformedLayout,
    /// The destination could not be written at `path`.
    Io { path: String },
}

/// What the caller does for one entry. Paths are relative to the destination.
#[derive(Debug, Clone, PartialEq, Eq)]
pub enum ExtractAction {
    /// Create the folder at this path, with the folders above it.
    CreateDir(String),
    /// Create or truncate the file at this path, after the folders above it,
    /// and copy the bytes of the entry into it.
    WriteFile(String),
}

/// One entry of an archive as the decisions see it.
#[derive(Debug, Clone, PartialEq, Eq)]
pub struct ArchiveEntry {
    /// The path of the entry inside the archive.
    pub name: String,
    /// Whether the entry is a folder.
    pub is_dir: bool,
}

/// What the caller is told for an entry: the place of an action, or a refusal.
pub enum Placement {
    /// A folder to create at this path below the destination.
    Dir(Seq<char>),
    /// A file to write at this path below the destination.
    File(Seq<char>),
    /// The entry does not fit the layout.
    Refused,
}

/// The decision for an entry named `name`, given the top folder seen so far.
///
/// Before any entry, only a folder is taken, and it becomes the top folder.
/// After that an entry is taken when its path begins with the top folder, and
/// is placed at the rest of its path.
pub open spec fn placement(root: Option<Seq<char>>, name: Seq<char>, is_dir: bool) -> Placement {
    match root {
        None => if is_dir {
            Placement::Dir(Seq::empty())
        } else {
            Placement::Refused
        },
        Some(top) => if top.is_prefix_of(name) {
            if is_dir {
                Placement::Dir(name.skip(top.len() as int))
            } else {
                Placement::File(name.skip(top.len() as int))
            }
        } else {
            Placement::Refused
        },
    }
}

/// The top folder after an entry named `name` was offered.
pub open spec fn root_after(root: Option<Seq<char>>, name: Seq<char>, is_dir: bool) -> Option<Seq<char>> {
    match root {
        None => if is_dir {
            Some(name)
        } else {
            None
        },
        Some(top) => Some(top),
    }
}

/// Whether `outcome` is what `placement` asks for.
pub open spec fn carries(outcome: Result<ExtractAction, ExtractError>, wanted: Placement) -> bool {
    match wanted {
        Placement::Dir(path) => outcome matches Ok(ExtractAction::CreateDir(p)) && p@ == path,
        Placement::File(path) => outcome matches Ok(ExtractAction::WriteFile(p)) && p@ == path,
        Placement::Refused => outcome == Err::<ExtractAction, ExtractError>(
            ExtractError::MalformedLayout,
        ),
    }
}

/// The progress of one extraction: the top folder of the archive, once the
/// first entry has set it.
#[derive(Debug, Clone)]
pub struct ArchiveExtractor {
    root: Option<String>,
}

impl View for ArchiveExtractor {
    type V = Option<Seq<char>>;

    closed spec fn view(&self) -> Option<Seq<char>> {
        match self.root {
            Some(top) => Some(top@),
            None => None,
        }
    }
}

impl ArchiveExtractor {
    /// An extraction that has seen no entry yet.
    pub fn new() -> (fresh: Self)
        ensures
            fresh@ is None,
    {
        ArchiveExtractor { root: None }
    }

    /// The top folder of the archive, once the first entry has set it.
    pub fn root(&self) -> (top: Option<&String>)
        ensures
            top is Some <==> self@ is Some,
            top is Some ==> top->0@ == self@->0,
    {
        match &self.root {
            Some(top) => Some(top),
            None => None,
        }
    }

    /// Takes the next entry of the stream and says what to do with it.
    ///
    /// The first entry has to be a folder: it becomes the top folder, and
    /// stands for the destination itself. Every later entry has to lie below
    /// the top folder, and goes to the rest of its path. An entry that does
    /// neither is refused, and leaves the extraction as it was: what was
    /// written for earlier entries stays written.
    pub fn step(&mut self, name: &str, is_dir: bool) -> (outcome: Result<ExtractAction, ExtractError>)
        ensures
            carries(outcome, placement(old(self)@, name@, is_dir)),
            final(self)@ == root_after(old(self)@, name@, is_dir),
    {
        match &self.root {
            None => {
                if is_dir {
                    self.root = Some(name.to_owned());
                    Ok(ExtractAction::CreateDir(String::new()))
                } else {
                    Err(ExtractError::MalformedLayout)
                }
            },
            Some(top) => {
                let top_chars = to_chars(top.as_str());
                let name_chars = to_chars(name);
                if starts_with(&name_chars, &top_chars) {
                    let rest = name.substring_char(top_chars.len(), name_chars.len()).to_owned();
                    if is_dir {
                        Ok(ExtractAction::CreateDir(rest))
                    } else {
                        Ok(ExtractAction::WriteFile(rest))
                    }
                } else {
                    Err(ExtractError::MalformedLayout)
                }
            },
        }
    }
}

/// The top folder after the entries `entries` were offered, in their order,
/// to an extraction whose top folder was `root`.
pub open spec fn root_after_all(root: Option<Seq<char>>, entries: Seq<ArchiveEntry>) -> Option<
    Seq<char>,
>
    decreases entries.len(),
{
    if entries.len() == 0 {
        root
    } else {
        let last = entries.last();
        root_after(root_after_all(root, entries.drop_last()), last.name@, last.is_dir)
    }
}

/// What a fresh extraction decides for entry `k` of `entries` when the
/// entries before it have been offered.
pub open spec fn placement_at(entries: Seq<ArchiveEntry>, k: int) -> Placement {
    placement(root_after_all(None, entries.take(k)), entries[k].name@, entries[k].is_dir)
}

/// Once set, the top folder never changes, whatever entries follow.
pub proof fn lemma_root_is_settled(top: Seq<char>, entries: Seq<ArchiveEntry>)
    ensures
        root_after_all(Some(top), entries) == Some(top),
    decreases entries.len(),
{
    if entries.len() > 0 {
        lemma_root_is_settled(top, entries.drop_last());
    }
}

/// An archive whose first entry is a file is refused at that entry, before
/// anything is written.
pub proof fn lemma_file_first_is_refused(entries: Seq<ArchiveEntry>)
    requires
        entries.len() > 0,
        !entries[0].is_dir,
    ensures
        placement_at(entries, 0) is Refused,
{
    assert(entries.take(0).len() == 0);
}

/// After a first entry that is a folder, the top folder is the name of that
/// entry for the rest of the extraction.
pub proof fn lemma_first_folder_is_root(entries: Seq<ArchiveEntry>, k: int)
    requires
        0 < k <= entries.len(),
        entries[0].is_dir,
    ensures
        root_after_all(None, entries.take(k)) == Some(entries[0].name@),
    decreases k,
{
    if k == 1 {
        assert(entries.take(1).drop_last().len() == 0);
        assert(entries.take(1).last() == entries[0]);
        assert(root_after_all(None, entries.take(1).drop_last()) == None::<Seq<char>>);
    } else {
        lemma_first_folder_is_root(entries, k - 1);
        assert(entries.take(k).drop_last() == entries.take(k - 1));
    }
}

/// Stripping loses nothing but the top folder: an entry that is taken lies,
/// in the archive, at the top folder followed by the path at which it is
/// placed; an entry that is refused does not lie below the top folder.
pub proof fn lemma_placement_keeps_the_path(top: Seq<char>, name: Seq<char>, is_dir: bool)
    ensures
        match placement(Some(top), name, is_dir) {
            Placement::Dir(path) => is_dir && top + path == name,
            Placement::File(path) => !is_dir && top + path == name,
            Placement::Refused => !top.is_prefix_of(name),
        },
{
    if top.is_prefix_of(name) {
        assert(name == name.subrange(0, top.len() as int) + name.skip(top.len() as int));
    }
}

/// What an extraction would do for a run of entries, worked out without
/// touching the destination.
#[derive(Debug, Clone, PartialEq, Eq)]
pub struct ExtractPlan {
    /// The actions for the entries that are taken, in the order of the
    /// entries. They are carried out even when a later entry is refused.
    pub actions: Vec<ExtractAction>,
    /// Why the entry after those was refused, if one was.
    pub failure: Option<ExtractError>,
}

impl ArchiveExtractor {
    /// What a fresh extraction does for `entries`, taken in their order: an
    /// action for each entry up to the first one that is refused, and the
    /// refusal, with which the extraction stops. An action is never the
    /// answer to a refused entry, so every entry before the refusal is taken.
    pub fn plan(entries: &Vec<ArchiveEntry>) -> (plan: ExtractPlan)
        ensures
            plan.actions@.len() <= entries@.len(),
            forall|k: int|
                0 <= k < plan.actions@.len() ==> carries(
                    Ok(#[trigger] plan.actions@[k]),
                    placement_at(entries@, k),
                ),
            plan.failure is None <==> plan.actions@.len() == entries@.len(),
            plan.failure is Some ==> plan.failure->0 == ExtractError::MalformedLayout
                && placement_at(entries@, plan.actions@.len() as int) is Refused,
    {
        let mut extractor = ArchiveExtractor::new();
        let mut actions: Vec<ExtractAction> = Vec::new();
        let mut k: usize = 0;
        proof {
            assert(entries@.take(0).len() == 0);
        }
        while k < entries.len()
            invariant
                k <= entries@.len(),
                actions@.len() == k,
                extractor@ == root_after_all(None, entries@.take(k as int)),
                forall|j: int|
                    0 <= j < k ==> carries(Ok(#[trigger] actions@[j]), placement_at(entries@, j)),
            decreases entries@.len() - k,
        {
            let entry = &entries[k];
            proof {
                assert(entries@.take(k + 1).drop_last() == entries@.take(k as int));
                assert(entries@.take(k + 1).last() == *entry);
            }
            match extractor.step(entry.name.as_str(), entry.is_dir) {
                Ok(action) => {
                    actions.push(action);
                },
                Err(refusal) => {
                    return ExtractPlan { actions, failure: Some(refusal) };
                },
            }
            k += 1;
        }
        ExtractPlan { actions, failure: None }
    }
}

} // verus!
