//! The layout of an EPUB archive: which entries are written, in what order
//! and how, and which of the unpacked files hold text to translate.
//!
//! Reading directories and writing archives is the caller's part; the rules
//! are here.

use vstd::prelude::*;
use vstd::string::StringExecFns;
use crate::text::{chars_of, str_eq, views};

verus! {

/// How an entry's bytes are kept in the archive.
#[derive(Clone, Copy, Debug, PartialEq, Eq, Structural)]
pub enum Compression {
    Stored,
    Deflated,
}

/// Permissions of the `mimetype` entry.
pub const MIMETYPE_PERMISSIONS: u32 = 0o644;

/// Permissions of every other entry.
pub const ENTRY_PERMISSIONS: u32 = 0o755;

/// One file or directory found below the folder that is packed.
#[derive(Clone, Debug)]
pub struct FolderEntry {
    /// Path relative to the folder; empty for the folder itself.
    pub name: String,
    pub is_file: bool,
}

/// One entry of the archive to write.
#[derive(Clone, Debug)]
pub struct ArchiveEntry {
    pub name: String,
    /// Whether the entry has content; a directory has none.
    pub is_file: bool,
    pub compression: Compression,
    pub unix_permissions: u32,
}

/// An archive entry, as the contracts see it.
pub ghost struct EntrySpec {
    pub name: Seq<char>,
    pub is_file: bool,
    pub compression: Compression,
    pub unix_permissions: int,
}

impl FolderEntry {
    pub open spec fn view(&self) -> (Seq<char>, bool) {
        (self.name@, self.is_file)
    }
}

impl ArchiveEntry {
    pub open spec fn view(&self) -> EntrySpec {
        EntrySpec {
            name: self.name@,
            is_file: self.is_file,
            compression: self.compression,
            unix_permissions: self.unix_permissions as int,
        }
    }
}

/// The folder's entries as the contracts see them.
pub open spec fn folder_view(entries: Seq<FolderEntry>) -> Seq<(Seq<char>, bool)> {
    Seq::new(entries.len(), |i: int| entries[i]@)
}

/// The archive's entries as the contracts see them.
pub open spec fn archive_view(entries: Seq<ArchiveEntry>) -> Seq<EntrySpec> {
    Seq::new(entries.len(), |i: int| entries[i]@)
}

/// The entry that must open every EPUB archive.
pub open spec fn mimetype_entry() -> EntrySpec {
    EntrySpec {
        name: "mimetype"@,
        is_file: true,
        compression: Compression::Stored,
        unix_permissions: MIMETYPE_PERMISSIONS as int,
    }
}

/// The entry written for a file or directory other than `mimetype`.
pub open spec fn deflated_entry(found: (Seq<char>, bool)) -> EntrySpec {
    EntrySpec {
        name: found.0,
        is_file: found.1,
        compression: Compression::Deflated,
        unix_permissions: ENTRY_PERMISSIONS as int,
    }
}

/// Whether the folder holds something named `mimetype` among its first `n`
/// entries.
pub open spec fn has_mimetype(found: Seq<(Seq<char>, bool)>, n: int) -> bool {
    exists|i: int| 0 <= i < n && (#[trigger] found[i]).0 == "mimetype"@
}

/// Whether an entry of the folder gets an entry of its own after the
/// first: `mimetype` does not, nor does the folder itself.
pub open spec fn is_packed(found: (Seq<char>, bool)) -> bool {
    found.0 != "mimetype"@ && (found.1 || found.0.len() > 0)
}

/// The entries written for the first `n` entries of the folder, `mimetype`
/// apart, in the order in which they were found.
pub open spec fn packed_upto(found: Seq<(Seq<char>, bool)>, n: int) -> Seq<EntrySpec>
    decreases n,
{
    if n <= 0 {
        Seq::empty()
    } else if is_packed(found[n - 1]) {
        packed_upto(found, n - 1).push(deflated_entry(found[n - 1]))
    } else {
        packed_upto(found, n - 1)
    }
}

/// The archive written for a folder: `mimetype` first, if the folder has
/// one, then everything else as it was found.
pub open spec fn spec_archive_plan(found: Seq<(Seq<char>, bool)>) -> Seq<EntrySpec> {
    let first = if has_mimetype(found, found.len() as int) {
        seq![mimetype_entry()]
    } else {
        Seq::empty()
    };
    first + packed_upto(found, found.len() as int)
}

/// Lays out the archive for a folder whose entries were found in the order
/// of `found`.
pub fn archive_plan(found: &Vec<FolderEntry>) -> (plan: Vec<ArchiveEntry>)
    ensures
        archive_view(plan@) == spec_archive_plan(folder_view(found@)),
{
    let ghost fv = folder_view(found@);
    let mut with_mimetype = false;
    let mut i: usize = 0;
    while i < found.len()
        invariant
            i <= found@.len(),
            fv == folder_view(found@),
            with_mimetype == has_mimetype(fv, i as int),
        decreases found.len() - i,
    {
        if str_eq(found[i].name.as_str(), "mimetype") {
            with_mimetype = true;
            assert(fv[i as int].0 == "mimetype"@);
        }
        i += 1;
    }
    let mut plan: Vec<ArchiveEntry> = Vec::new();
    if with_mimetype {
        plan.push(
            ArchiveEntry {
                name: String::from_str("mimetype"),
                is_file: true,
                compression: Compression::Stored,
                unix_permissions: MIMETYPE_PERMISSIONS,
            },
        );
    }
    let ghost first = archive_view(plan@);
    i = 0;
    while i < found.len()
        invariant
            i <= found@.len(),
            fv == folder_view(found@),
            archive_view(plan@) == first + packed_upto(fv, i as int),
        decreases found.len() - i,
    {
        let entry = &found[i];
        let ghost before = archive_view(plan@);
        assert(fv[i as int] == entry@);
        if !str_eq(entry.name.as_str(), "mimetype") && (entry.is_file
            || !entry.name.as_str().is_empty()) {
            plan.push(
                ArchiveEntry {
                    name: entry.name.clone(),
                    is_file: entry.is_file,
                    compression: Compression::Deflated,
                    unix_permissions: ENTRY_PERMISSIONS,
                },
            );
            assert(archive_view(plan@) =~= before.push(deflated_entry(fv[i as int])));
        } else {
            assert(archive_view(plan@) =~= before);
        }
        i += 1;
    }
    plan
}

/// What an archive entry becomes when the archive is unpacked.
#[derive(Clone, Copy, Debug, PartialEq, Eq, Structural)]
pub enum Unpacked {
    /// A directory, made together with the directories above it.
    Directory,
    /// A file, written after the directories above it were made.
    File,
}

/// Whether an archive entry of this name is a directory: its name ends in
/// a slash.
pub open spec fn is_directory_name(name: Seq<char>) -> bool {
    name.len() > 0 && name.last() == '/'
}

/// Tells whether the archive entry `name` is unpacked as a directory or as
/// a file.
pub fn unpacked_kind(name: &str) -> (kind: Unpacked)
    ensures
        kind == if is_directory_name(name@) {
            Unpacked::Directory
        } else {
            Unpacked::File
        },
{
    let chars = chars_of(name);
    if chars.len() > 0 && chars[chars.len() - 1] == '/' {
        Unpacked::Directory
    } else {
        Unpacked::File
    }
}

/// Whether the last part of `path` has the extension `ext`: it ends in a
/// dot and `ext`, and something other than a slash stands before the dot.
/// A name that begins with its only dot has no extension.
pub open spec fn has_extension(path: Seq<char>, ext: Seq<char>) -> bool {
    let dot = path.len() - ext.len() - 1;
    &&& dot >= 1
    &&& path[dot] == '.'
    &&& path[dot - 1] != '/'
    &&& path.subrange(dot + 1, path.len() as int) == ext
}

/// Whether a file of this path is one of the book's documents: its
/// extension is `xhtml` or `html`, in lower case.
pub open spec fn is_xhtml_path(path: Seq<char>) -> bool {
    has_extension(path, "xhtml"@) || has_extension(path, "html"@)
}

/// Tells whether the last part of `path` has the extension `ext`.
pub fn path_has_extension(path: &Vec<char>, ext: &Vec<char>) -> (b: bool)
    ensures
        b == has_extension(path@, ext@),
{
    if path.len() < 2 || ext.len() > path.len() - 2 {
        return false;
    }
    let len = path.len();
    let dot = len - ext.len() - 1;
    if path[dot] != '.' || path[dot - 1] == '/' {
        return false;
    }
    let mut i: usize = 0;
    while i < ext.len()
        invariant
            i <= ext@.len(),
            len == path@.len(),
            dot == path@.len() - ext@.len() - 1,
            dot >= 1,
            forall|j: int| 0 <= j < i ==> path@[dot + 1 + j] == ext@[j],
        decreases ext.len() - i,
    {
        if path[dot + 1 + i] != ext[i] {
            assert(path@.subrange(dot + 1, path@.len() as int)[i as int] != ext@[i as int]);
            return false;
        }
        i += 1;
    }
    assert(path@.subrange(dot + 1, path@.len() as int) =~= ext@);
    true
}

/// Tells whether the file at `path` is one of the book's documents.
pub fn path_is_xhtml(path: &str) -> (b: bool)
    ensures
        b == is_xhtml_path(path@),
{
    let chars = chars_of(path);
    let xhtml = chars_of("xhtml");
    let html = chars_of("html");
    path_has_extension(&chars, &xhtml) || path_has_extension(&chars, &html)
}

/// The documents among the first `n` paths, in their order.
pub open spec fn xhtml_upto(paths: Seq<Seq<char>>, n: int) -> Seq<Seq<char>>
    decreases n,
{
    if n <= 0 {
        Seq::empty()
    } else if is_xhtml_path(paths[n - 1]) {
        xhtml_upto(paths, n - 1).push(paths[n - 1])
    } else {
        xhtml_upto(paths, n - 1)
    }
}

/// The book's documents among the files found in the unpacked folder: the
/// paths with the extension `xhtml` or `html`, in the order in which they
/// were found.
pub fn get_xhtml_paths(files: &Vec<String>) -> (documents: Vec<String>)
    ensures
        views(documents@) == xhtml_upto(views(files@), files@.len() as int),
{
    let mut documents: Vec<String> = Vec::new();
    let mut i: usize = 0;
    while i < files.len()
        invariant
            i <= files@.len(),
            views(documents@) == xhtml_upto(views(files@), i as int),
        decreases files.len() - i,
    {
        let ghost before = views(documents@);
        assert(views(files@)[i as int] == files@[i as int]@);
        if path_is_xhtml(files[i].as_str()) {
            documents.push(files[i].clone());
            assert(views(documents@) =~= before.push(files@[i as int]@));
        } else {
            assert(views(documents@) =~= before);
        }
        i += 1;
    }
    documents
}

/// The rules that make the archive a valid EPUB. If anything in the folder
/// is named `mimetype`, the first entry is the `mimetype` file, stored
/// without compression and with permissions 0644, and no other entry has
/// that name; every other entry is deflated and has permissions 0755.
pub proof fn law_mimetype_first(found: Seq<(Seq<char>, bool)>)
    ensures
        has_mimetype(found, found.len() as int) ==> spec_archive_plan(found).len() > 0
            && spec_archive_plan(found)[0] == mimetype_entry(),
        forall|k: int|
            0 <= k < spec_archive_plan(found).len() && (#[trigger] spec_archive_plan(
                found,
            )[k]).name == "mimetype"@ ==> k == 0 && spec_archive_plan(found)[k]
                == mimetype_entry(),
        forall|k: int|
            0 <= k < spec_archive_plan(found).len() && (#[trigger] spec_archive_plan(
                found,
            )[k]).name != "mimetype"@ ==> spec_archive_plan(found)[k].compression
                == Compression::Deflated && spec_archive_plan(found)[k].unix_permissions
                == ENTRY_PERMISSIONS,
{
    lemma_packed(found, found.len() as int);
}

/// Nothing of the folder is lost or doubled: the entries after `mimetype`
/// are exactly the folder's files and directories other than `mimetype`
/// and the folder itself, each once, in the order in which they were
/// found.
pub proof fn law_archive_complete(found: Seq<(Seq<char>, bool)>, n: int)
    requires
        0 <= n <= found.len(),
    ensures
        packed_upto(found, n) == found.subrange(0, n).filter(|e: (Seq<char>, bool)| is_packed(e)).map_values(
            |e: (Seq<char>, bool)| deflated_entry(e),
        ),
    decreases n,
{
    let keep = |e: (Seq<char>, bool)| is_packed(e);
    let make = |e: (Seq<char>, bool)| deflated_entry(e);
    if n == 0 {
        assert(found.subrange(0, 0) =~= Seq::<(Seq<char>, bool)>::empty());
        assert(Seq::<(Seq<char>, bool)>::empty().filter(keep) =~= Seq::<(Seq<char>, bool)>::empty()) by {
            reveal(Seq::filter);
        }
        assert(packed_upto(found, 0) =~= Seq::<(Seq<char>, bool)>::empty().map_values(make));
    } else {
        law_archive_complete(found, n - 1);
        let head = found.subrange(0, n - 1);
        assert(found.subrange(0, n) =~= head.push(found[n - 1]));
        assert(found.subrange(0, n).drop_last() =~= head);
        reveal(Seq::filter);
        assert(found.subrange(0, n).filter(keep) == if is_packed(found[n - 1]) {
            head.filter(keep).push(found[n - 1])
        } else {
            head.filter(keep)
        });
        if is_packed(found[n - 1]) {
            assert(head.filter(keep).push(found[n - 1]).map_values(make) =~= head.filter(
                keep,
            ).map_values(make).push(deflated_entry(found[n - 1])));
        }
    }
}

proof fn lemma_packed(found: Seq<(Seq<char>, bool)>, n: int)
    requires
        0 <= n <= found.len(),
    ensures
        forall|k: int|
            0 <= k < packed_upto(found, n).len() ==> {
                let e = #[trigger] packed_upto(found, n)[k];
                &&& e.name != "mimetype"@
                &&& e.compression == Compression::Deflated
                &&& e.unix_permissions == ENTRY_PERMISSIONS
            },
    decreases n,
{
    if n > 0 {
        lemma_packed(found, n - 1);
    }
}

} // verus!
