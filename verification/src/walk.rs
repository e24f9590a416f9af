//! The walk over the session directories that finds rollout files.
//!
//! Whoever walks the file system asks this module, entry by entry, what to do
//! next. The walk stops for good once enough files have been found.
use crate::rollout::{
    is_rollout_file_name, is_rollout_name, law_rollout_name_is_made_of_parts,
    MAX_OBSERVABILITY_FILES,
};
use vstd::prelude::*;

verus! {

/// An entry of a directory, as far as the walk cares.
#[derive(Clone, Debug)]
pub enum DirEntry {
    Directory,
    /// Anything but a directory, with its name where that is valid Unicode.
    File { name: Option<String> },
}

/// What a directory entry looks like to the walk.
pub enum EntryKind {
    Directory,
    File { name: Option<Seq<char>> },
}

impl View for DirEntry {
    type V = EntryKind;

    open spec fn view(&self) -> EntryKind {
        match self {
            DirEntry::Directory => EntryKind::Directory,
            DirEntry::File { name: Some(name) } => EntryKind::File { name: Some(name@) },
            DirEntry::File { name: None } => EntryKind::File { name: None },
        }
    }
}

/// What the walk does at an entry.
#[derive(Clone, Copy, Debug, PartialEq, Eq, Structural)]
pub enum Visit {
    /// Leave this directory: enough files have been found.
    Stop,
    /// Walk this directory before the next entry.
    Descend,
    /// This is a rollout file: add it to the files found.
    Collect,
    /// Go on with the next entry.
    Skip,
}

/// What the walk does at an entry after `collected` files have been found.
pub open spec fn visit(collected: int, entry: EntryKind) -> Visit {
    if collected >= MAX_OBSERVABILITY_FILES {
        Visit::Stop
    } else {
        match entry {
            EntryKind::Directory => Visit::Descend,
            EntryKind::File { name: Some(name) } => if is_rollout_name(name) {
                Visit::Collect
            } else {
                Visit::Skip
            },
            EntryKind::File { name: None } => Visit::Skip,
        }
    }
}

/// Whether the walk reads a directory after `collected` files have been found.
pub open spec fn scans(collected: int, exists_on_disk: bool) -> bool {
    collected < MAX_OBSERVABILITY_FILES && exists_on_disk
}

/// Whether the walk reads a directory after `collected` files have been found.
pub fn scans_directory(collected: usize, exists_on_disk: bool) -> (r: bool)
    ensures
        r == scans(collected as int, exists_on_disk),
{
    collected < MAX_OBSERVABILITY_FILES && exists_on_disk
}

/// Decides what to do at an entry after `collected` files have been found.
pub fn visit_entry(collected: usize, entry: &DirEntry) -> (r: Visit)
    ensures
        r == visit(collected as int, entry@),
{
    if collected >= MAX_OBSERVABILITY_FILES {
        return Visit::Stop;
    }
    match entry {
        DirEntry::Directory => Visit::Descend,
        DirEntry::File { name: Some(name) } => if is_rollout_file_name(name.as_str()) {
            Visit::Collect
        } else {
            Visit::Skip
        },
        DirEntry::File { name: None } => Visit::Skip,
    }
}

/// A file or directory on disk, with what a walk finds in it. The listing of a
/// directory is `None` where it does not exist or cannot be read.
pub enum FsNode {
    Directory { listing: Option<Seq<FsNode>> },
    File { name: Option<Seq<char>> },
}

impl FsNode {
    pub open spec fn kind(self) -> EntryKind {
        match self {
            FsNode::Directory { listing } => EntryKind::Directory,
            FsNode::File { name } => EntryKind::File { name },
        }
    }
}

/// The names of the files found once a walk has gone through the entries, when
/// `files` have been found before.
pub open spec fn walk_entries(entries: Seq<FsNode>, files: Seq<Seq<char>>) -> Seq<Seq<char>>
    decreases entries,
{
    if entries.len() == 0 {
        files
    } else {
        let rest = entries.subrange(1, entries.len() as int);
        match visit(files.len() as int, entries[0].kind()) {
            Visit::Stop => files,
            Visit::Descend => walk_entries(
                rest,
                match entries[0] {
                    FsNode::Directory { listing: Some(inner) } => if scans(
                        files.len() as int,
                        true,
                    ) {
                        walk_entries(inner, files)
                    } else {
                        files
                    },
                    _ => files,
                },
            ),
            Visit::Collect => walk_entries(
                rest,
                match entries[0] {
                    FsNode::File { name: Some(name) } => files.push(name),
                    _ => files,
                },
            ),
            Visit::Skip => walk_entries(rest, files),
        }
    }
}

/// The names of all rollout files below the entries, in the order of the walk.
pub open spec fn rollout_names(entries: Seq<FsNode>) -> Seq<Seq<char>>
    decreases entries,
{
    if entries.len() == 0 {
        Seq::empty()
    } else {
        let rest = rollout_names(entries.subrange(1, entries.len() as int));
        match entries[0] {
            FsNode::Directory { listing: Some(inner) } => rollout_names(inner) + rest,
            FsNode::File { name: Some(name) } => if is_rollout_name(name) {
                seq![name] + rest
            } else {
                rest
            },
            _ => rest,
        }
    }
}

/// `found` after the files of `more`, as far as the walk takes them.
pub open spec fn capped(found: Seq<Seq<char>>, more: Seq<Seq<char>>) -> Seq<Seq<char>> {
    if found.len() >= MAX_OBSERVABILITY_FILES {
        found
    } else if found.len() + more.len() <= MAX_OBSERVABILITY_FILES {
        found + more
    } else {
        found + more.take(MAX_OBSERVABILITY_FILES - found.len())
    }
}

/// The walk finds the rollout files in order, at whatever depth, until it has as
/// many as it may have, and then no more.
pub proof fn law_walk_finds_first_files(entries: Seq<FsNode>, files: Seq<Seq<char>>)
    ensures
        walk_entries(entries, files) == capped(files, rollout_names(entries)),
    decreases entries,
{
    let found = walk_entries(entries, files);
    if entries.len() == 0 {
        assert(found =~= capped(files, rollout_names(entries)));
    } else {
        let rest = entries.subrange(1, entries.len() as int);
        match entries[0] {
            FsNode::Directory { listing: Some(inner) } => {
                law_walk_finds_first_files(inner, files);
                let mid = walk_entries(inner, files);
                law_walk_finds_first_files(rest, mid);
            },
            FsNode::File { name: Some(name) } => {
                law_walk_finds_first_files(rest, files.push(name));
                law_walk_finds_first_files(rest, files);
            },
            _ => {
                law_walk_finds_first_files(rest, files);
            },
        }
        assert(found =~= capped(files, rollout_names(entries)));
    }
}

/// No walk, over whatever trees and however many of them in turn, makes the list
/// of files longer than it may be, so cutting the list to that length afterwards
/// changes nothing.
pub proof fn law_walk_is_bounded(entries: Seq<FsNode>, files: Seq<Seq<char>>)
    requires
        files.len() <= MAX_OBSERVABILITY_FILES,
    ensures
        walk_entries(entries, files).len() <= MAX_OBSERVABILITY_FILES,
        files.len() <= walk_entries(entries, files).len(),
        walk_entries(entries, files).take(files.len() as int) == files,
{
    law_walk_finds_first_files(entries, files);
    assert(walk_entries(entries, files).take(files.len() as int) =~= files);
}

/// A directory that does not exist is not read, and none is once enough files have
/// been found.
pub proof fn law_missing_directories_are_not_read(collected: int, exists_on_disk: bool)
    ensures
        scans(collected, exists_on_disk) <==> exists_on_disk && collected
            < MAX_OBSERVABILITY_FILES,
{
}

/// An entry looks to the walk as what it is: a directory, or a file with the name
/// that it has.
pub proof fn law_entries_look_as_they_are(entry: DirEntry)
    ensures
        entry is Directory <==> entry@ is Directory,
        entry matches DirEntry::File { name: Some(name) } ==> entry@ == (EntryKind::File {
            name: Some(name@),
        }),
        entry matches DirEntry::File { name: None } ==> entry@ == (EntryKind::File { name: None }),
{
}

/// Before enough files have been found, the walk goes into every directory, and takes
/// a file exactly if its name is `rollout-`, then anything, then `.jsonl`; afterwards
/// it stops.
pub proof fn law_walk_takes_rollout_files(collected: int, entry: EntryKind)
    ensures
        visit(collected, entry) == Visit::Stop <==> collected >= MAX_OBSERVABILITY_FILES,
        collected < MAX_OBSERVABILITY_FILES ==> {
            &&& visit(collected, entry) == Visit::Descend <==> entry is Directory
            &&& visit(collected, entry) == Visit::Collect <==> (entry matches EntryKind::File {
                name: Some(name),
            } && exists|core: Seq<char>| name == #[trigger] ("rollout-"@ + core) + ".jsonl"@)
        },
{
    if let EntryKind::File { name: Some(name) } = entry {
        law_rollout_name_is_made_of_parts(name, Seq::empty());
        if exists|core: Seq<char>| name == #[trigger] ("rollout-"@ + core) + ".jsonl"@ {
            let core = choose|core: Seq<char>| name == #[trigger] ("rollout-"@ + core) + ".jsonl"@;
            law_rollout_name_is_made_of_parts(name, core);
        }
    }
}

} // verus!
