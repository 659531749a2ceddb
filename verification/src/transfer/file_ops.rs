//! Looking at files and directories, removing them, and listing them.
//!
//! The caller asks the file system and is told here what to do with what it says.

use vstd::prelude::*;

use crate::clock::WallTime;
use crate::transfer::error::{
    error_text, internal, io_error, map_io_error, outcome, ErrorView, FileTransferError, IoKind,
};
use crate::transfer::listing::{
    finish_listing, is_listing_of, name_is_wanted, shown_files, wants_name,
};
use crate::transfer::manifest::{FileMetadata, FileType};
use crate::transfer::messages::{
    text_of, ExistsResponse, FileInfo, FileInfoView, ListResponse, MetadataResponse,
    RemoveResponse,
};
use crate::transfer::options::{ListOptions, RemoveOptions, SortBy};

verus! {

/// What the file system says of a path.
#[derive(Debug, Clone, Copy, PartialEq, Eq, Structural)]
pub struct FileFacts {
    pub is_dir: bool,
    pub is_file: bool,
    pub size: u64,
    pub created: Option<WallTime>,
    pub modified: Option<WallTime>,
    pub permissions: Option<u32>,
}

/// What the file system refuses something with.
#[derive(Debug, PartialEq, Eq)]
pub struct IoFailure {
    pub kind: IoKind,
    pub text: String,
}

/// The second that a time falls into, where the time is known and has one.
pub open spec fn second_of(time: Option<WallTime>) -> Option<u64> {
    match time {
        Some(at) => at.seconds(),
        None => None,
    }
}

/// What a path leads to.
pub open spec fn type_of(facts: FileFacts) -> FileType {
    if facts.is_dir {
        FileType::Directory
    } else if facts.is_file {
        FileType::File
    } else {
        FileType::Symlink
    }
}

/// What is known of a file beside its content.
pub open spec fn metadata_of(facts: FileFacts) -> FileMetadata {
    FileMetadata {
        created_at: second_of(facts.created),
        modified_at: second_of(facts.modified),
        permissions: facts.permissions,
        file_type: type_of(facts),
        size: Some(facts.size),
    }
}

/// The second that a time falls into.
pub fn to_unix_seconds(time: Option<WallTime>) -> (r: Result<u64, FileTransferError>)
    ensures
        outcome(r) == (match second_of(time) {
            Some(second) => Ok(second),
            None => Err(ErrorView::Internal("timestamp conversion failed"@)),
        }),
{
    let second = match time {
        Some(at) => at.unix_seconds(),
        None => None,
    };
    match second {
        Some(second) => Ok(second),
        None => Err(internal("timestamp conversion failed")),
    }
}

/// What a path leads to.
pub fn file_type_from_fs(facts: &FileFacts) -> (file_type: FileType)
    ensures
        file_type == type_of(*facts),
{
    if facts.is_dir {
        FileType::Directory
    } else if facts.is_file {
        FileType::File
    } else {
        FileType::Symlink
    }
}

/// What is known of a file beside its content.
pub fn file_metadata_from_fs(facts: &FileFacts) -> (metadata: FileMetadata)
    ensures
        metadata == metadata_of(*facts),
{
    FileMetadata {
        created_at: match to_unix_seconds(facts.created) {
            Ok(second) => Some(second),
            Err(_) => None,
        },
        modified_at: match to_unix_seconds(facts.modified) {
            Ok(second) => Some(second),
            Err(_) => None,
        },
        permissions: facts.permissions,
        file_type: file_type_from_fs(facts),
        size: Some(facts.size),
    }
}

/// What to remove.
#[derive(Debug, Clone, Copy, PartialEq, Eq, Structural)]
pub enum Removal {
    /// Nothing: there is nothing.
    Nothing,
    /// A file.
    File,
    /// An empty directory.
    Directory,
    /// A directory with all that is in it.
    Tree,
}

/// Whether a refusal is no matter: there is nothing, and that was to be expected.
pub open spec fn is_no_matter(failure: IoFailure, options: RemoveOptions) -> bool {
    failure.kind is NotFound && options.ignore_not_found
}

/// What to remove at a path of which the file system says something.
pub open spec fn removal_plan(found: Result<FileFacts, IoFailure>, options: RemoveOptions) -> Result<Removal, ErrorView> {
    match found {
        Ok(facts) => Ok(
            if !facts.is_dir {
                Removal::File
            } else if options.recursive {
                Removal::Tree
            } else {
                Removal::Directory
            },
        ),
        Err(failure) => if is_no_matter(failure, options) {
            Ok(Removal::Nothing)
        } else {
            Err(io_error(failure.kind, failure.text@))
        },
    }
}

/// What a removal comes to.
pub open spec fn removal_end(done: Result<(), IoFailure>, options: RemoveOptions) -> Result<(), ErrorView> {
    match done {
        Ok(()) => Ok(()),
        Err(failure) => if is_no_matter(failure, options) {
            Ok(())
        } else {
            Err(io_error(failure.kind, failure.text@))
        },
    }
}

fn matters_not(failure: &IoFailure, options: &RemoveOptions) -> (b: bool)
    ensures
        b == is_no_matter(*failure, *options),
{
    let not_found = match failure.kind {
        IoKind::NotFound => true,
        _ => false,
    };
    not_found && options.ignore_not_found
}

/// What to remove at a path of which the file system says something.
pub fn plan_removal(found: Result<FileFacts, IoFailure>, options: &RemoveOptions) -> (r: Result<
    Removal,
    FileTransferError,
>)
    ensures
        outcome(r) == removal_plan(found, *options),
{
    match found {
        Ok(facts) => Ok(
            if !facts.is_dir {
                Removal::File
            } else if options.recursive {
                Removal::Tree
            } else {
                Removal::Directory
            },
        ),
        Err(failure) => {
            if matters_not(&failure, options) {
                Ok(Removal::Nothing)
            } else {
                Err(map_io_error(failure.kind, failure.text))
            }
        },
    }
}

/// What a removal comes to.
pub fn finish_removal(done: Result<(), IoFailure>, options: &RemoveOptions) -> (r: Result<
    (),
    FileTransferError,
>)
    ensures
        outcome(r) == removal_end(done, *options),
{
    match done {
        Ok(()) => Ok(()),
        Err(failure) => {
            if matters_not(&failure, options) {
                Ok(())
            } else {
                Err(map_io_error(failure.kind, failure.text))
            }
        },
    }
}

/// What is known of a file and how large it is.
pub fn metadata_with_size(found: Result<FileFacts, IoFailure>) -> (r: Result<
    (FileMetadata, u64),
    FileTransferError,
>)
    ensures
        outcome(r) == (match found {
            Ok(facts) => Ok((metadata_of(facts), facts.size)),
            Err(failure) => Err(io_error(failure.kind, failure.text@)),
        }),
{
    match found {
        Ok(facts) => Ok((file_metadata_from_fs(&facts), facts.size)),
        Err(failure) => Err(map_io_error(failure.kind, failure.text)),
    }
}

/// Answers whether a path leads somewhere.
pub fn handle_exists_request(found: Option<FileFacts>) -> (response: ExistsResponse)
    ensures
        response == (match found {
            Some(facts) => ExistsResponse {
                exists: true,
                is_file: facts.is_file,
                is_directory: facts.is_dir,
            },
            None => ExistsResponse { exists: false, is_file: false, is_directory: false },
        }),
{
    match found {
        Some(facts) => ExistsResponse {
            exists: true,
            is_file: facts.is_file,
            is_directory: facts.is_dir,
        },
        None => ExistsResponse { exists: false, is_file: false, is_directory: false },
    }
}

/// How a path is removed that another node asks to remove: as that node says.
pub fn requested_removal(recursive: bool, ignore_not_found: bool) -> (options: RemoveOptions)
    ensures
        options == (RemoveOptions { recursive, ignore_not_found }),
{
    RemoveOptions { recursive, ignore_not_found }
}

/// Answers whether a path was removed.
pub fn handle_remove_request(done: Result<(), FileTransferError>) -> (response: RemoveResponse)
    ensures
        response.success == (done is Ok),
        text_of(response.error) == (match outcome(done) {
            Ok(()) => None,
            Err(error) => Some(error_text(error)),
        }),
{
    match done {
        Ok(()) => RemoveResponse { success: true, error: None },
        Err(error) => RemoveResponse { success: false, error: Some(error.message()) },
    }
}

/// Answers what a path leads to. That it leads nowhere is no error.
pub fn handle_metadata_request(found: Result<(FileMetadata, u64), FileTransferError>) -> (response: MetadataResponse)
    ensures
        response.found == (found is Ok),
        response.metadata == (match found {
            Ok((metadata, size)) => Some(metadata),
            Err(_) => None,
        }),
        response.size == (match found {
            Ok((metadata, size)) => Some(size),
            Err(_) => None,
        }),
        text_of(response.error) == (match outcome(found) {
            Ok(_) => None,
            Err(ErrorView::FileNotFound(_)) => None,
            Err(error) => Some(error_text(error)),
        }),
{
    match found {
        Ok((metadata, size)) => MetadataResponse {
            found: true,
            metadata: Some(metadata),
            size: Some(size),
            error: None,
        },
        Err(FileTransferError::FileNotFound(_)) => MetadataResponse {
            found: false,
            metadata: None,
            size: None,
            error: None,
        },
        Err(error) => MetadataResponse {
            found: false,
            metadata: None,
            size: None,
            error: Some(error.message()),
        },
    }
}

/// What a listing holds that another node asks for: all entries, by name.
pub fn requested_listing(recursive: bool, include_hidden: bool) -> (options: ListOptions)
    ensures
        options.recursive == recursive,
        options.include_hidden == include_hidden,
        !options.files_only,
        !options.directories_only,
        options.pattern is None,
        options.limit == 0,
        options.sort_by == SortBy::Name,
{
    ListOptions {
        recursive,
        include_hidden,
        files_only: false,
        directories_only: false,
        pattern: None,
        limit: 0,
        sort_by: SortBy::Name,
    }
}

/// Answers what is in a directory.
pub fn handle_list_request(listed: Result<Vec<FileInfo>, FileTransferError>) -> (response: ListResponse)
    ensures
        shown_files(response.files@) == (match listed {
            Ok(files) => shown_files(files@),
            Err(_) => Seq::empty(),
        }),
        text_of(response.error) == (match outcome(listed) {
            Ok(_) => None,
            Err(error) => Some(error_text(error)),
        }),
{
    match listed {
        Ok(files) => ListResponse { files, error: None },
        Err(error) => {
            let response = ListResponse { files: Vec::new(), error: Some(error.message()) };
            assert(shown_files(response.files@) =~= Seq::empty());
            response
        },
    }
}

/// A listing that is being made.
#[derive(Debug)]
pub struct Lister {
    options: ListOptions,
    entries: Vec<FileInfo>,
    stack: Vec<String>,
}

/// A listing that is being made, seen as plain values.
#[verifier::ext_equal]
pub struct ListerView {
    pub options: ListOptions,
    pub entries: Seq<FileInfoView>,
    /// The directories that are still to be read, the next one last.
    pub stack: Seq<Seq<char>>,
}

impl View for Lister {
    type V = ListerView;

    closed spec fn view(&self) -> ListerView {
        ListerView {
            options: self.options,
            entries: shown_files(self.entries@),
            stack: self.stack@.map_values(|p: String| p@),
        }
    }
}

/// Whether an entry is wanted in a listing by what it is.
pub open spec fn type_is_wanted(options: ListOptions, is_dir: bool) -> bool {
    (options.directories_only ==> is_dir) && (options.files_only ==> !is_dir)
}

/// An entry of a listing.
pub open spec fn entry_of(path: Seq<char>, facts: FileFacts, second: u64) -> FileInfoView {
    FileInfoView { path, size: facts.size, modified_at: second, file_type: type_of(facts) }
}

/// A listing with an entry. Only what is wanted is listed, and only directories that are listed
/// are read.
pub open spec fn with_entry(v: ListerView, path: Seq<char>, facts: FileFacts) -> Result<ListerView, ErrorView> {
    if !type_is_wanted(v.options, facts.is_dir) {
        Ok(v)
    } else {
        match second_of(facts.modified) {
            None => Err(ErrorView::Internal("timestamp conversion failed"@)),
            Some(second) => Ok(
                ListerView {
                    entries: v.entries.push(entry_of(path, facts, second)),
                    stack: if facts.is_dir && v.options.recursive {
                        v.stack.push(path)
                    } else {
                        v.stack
                    },
                    ..v
                },
            ),
        }
    }
}

impl Lister {
    /// A listing of a directory that is still to be read.
    pub fn new(dir_path: String, options: ListOptions) -> (lister: Self)
        ensures
            lister@ == (ListerView {
                options,
                entries: Seq::empty(),
                stack: seq![dir_path@],
            }),
    {
        let mut stack: Vec<String> = Vec::new();
        stack.push(dir_path);
        let lister = Lister { options, entries: Vec::new(), stack };
        assert(lister@ =~= (ListerView { options, entries: Seq::empty(), stack: seq![dir_path@] }));
        lister
    }

    /// The directory to read next, none where all were read.
    pub fn next_directory(&mut self) -> (dir: Option<String>)
        ensures
            match dir {
                Some(dir) => {
                    &&& old(self)@.stack.len() > 0
                    &&& dir@ == old(self)@.stack.last()
                    &&& final(self)@ == (ListerView {
                        stack: old(self)@.stack.drop_last(),
                        ..old(self)@
                    })
                },
                None => old(self)@.stack.len() == 0 && final(self)@ == old(self)@,
            },
    {
        let ghost before = self@;
        let dir = self.stack.pop();
        if dir.is_some() {
            assert(self@ =~= (ListerView { stack: before.stack.drop_last(), ..before }));
        } else {
            assert(self@ =~= before);
        }
        dir
    }

    /// Whether an entry with a name is to be looked at.
    pub fn wants(&self, name: &str) -> (wanted: bool)
        ensures
            wanted == name_is_wanted(self@.options, name@),
    {
        wants_name(&self.options, name)
    }

    /// Takes an entry that was looked at.
    pub fn take_entry(&mut self, path: String, facts: &FileFacts) -> (r: Result<(), FileTransferError>)
        ensures
            match r {
                Ok(()) => with_entry(old(self)@, path@, *facts) == Ok::<ListerView, ErrorView>(
                    final(self)@,
                ),
                Err(error) => {
                    &&& with_entry(old(self)@, path@, *facts) == Err::<ListerView, ErrorView>(
                        error@,
                    )
                    &&& final(self)@ == old(self)@
                },
            },
    {
        let ghost before = self@;
        if self.options.directories_only && !facts.is_dir {
            return Ok(());
        }
        if self.options.files_only && facts.is_dir {
            return Ok(());
        }
        let second: u64 = match to_unix_seconds(facts.modified) {
            Ok(second) => second,
            Err(error) => {
                return Err(error);
            },
        };
        if facts.is_dir && self.options.recursive {
            self.stack.push(path.clone());
            assert(self@.stack =~= before.stack.push(path@));
        }
        let ghost stack = self@.stack;
        self.entries.push(
            FileInfo {
                path,
                size: facts.size,
                modified_at: second,
                file_type: file_type_from_fs(facts),
            },
        );
        assert(self@.entries =~= before.entries.push(entry_of(path@, *facts, second)));
        assert(self@.stack =~= stack);
        Ok(())
    }

    /// The listing.
    pub fn finish(self) -> (files: Vec<FileInfo>)
        ensures
            is_listing_of(self@.entries, self@.options, shown_files(files@)),
    {
        finish_listing(self.entries, &self.options)
    }
}

/// What is not there is removed already, for who does not mind, whether it was gone before the
/// removal or went during it. Who does mind is told.
pub proof fn removing_nothing_succeeds(failure: IoFailure, options: RemoveOptions)
    requires
        failure.kind is NotFound,
    ensures
        removal_plan(Err(failure), options) == (if options.ignore_not_found {
            Ok(Removal::Nothing)
        } else {
            Err(ErrorView::FileNotFound(failure.text@))
        }),
        removal_end(Err(failure), options) == (if options.ignore_not_found {
            Ok(())
        } else {
            Err(ErrorView::FileNotFound(failure.text@))
        }),
{
}

/// A directory is removed with what is in it only where that was asked for.
pub proof fn tree_is_removed_only_on_demand(found: Result<FileFacts, IoFailure>, options: RemoveOptions)
    requires
        removal_plan(found, options) == Ok::<Removal, ErrorView>(Removal::Tree),
    ensures
        options.recursive,
        found matches Ok(facts) && facts.is_dir,
{
}

/// A listing without subdirectories reads one directory.
pub proof fn flat_listing_reads_one_directory(v: ListerView, path: Seq<char>, facts: FileFacts)
    requires
        !v.options.recursive,
    ensures
        with_entry(v, path, facts) matches Ok(w) ==> w.stack == v.stack,
{
}

/// Every entry of a listing is of a wanted type.
pub proof fn only_wanted_types_are_listed(
    v: ListerView,
    path: Seq<char>,
    facts: FileFacts,
    i: int,
)
    requires
        with_entry(v, path, facts) matches Ok(w) && v.entries.len() <= i < w.entries.len(),
    ensures
        ({
            let w = with_entry(v, path, facts)->Ok_0;
            &&& v.options.directories_only ==> w.entries[i].file_type is Directory
            &&& v.options.files_only ==> !(w.entries[i].file_type is Directory)
            &&& w.options == v.options
        }),
{
}

/// A directory is a directory, a plain file is a file, and what is neither counts as a link.
pub proof fn kind_is_as_found(facts: FileFacts)
    ensures
        type_of(facts) is Directory <==> facts.is_dir,
        type_of(facts) is File <==> facts.is_file && !facts.is_dir,
        type_of(facts) is Symlink <==> !facts.is_file && !facts.is_dir,
{
}

/// What is told of a file is what was found of it, with its times in whole seconds.
pub proof fn metadata_is_as_found(facts: FileFacts)
    ensures
        metadata_of(facts).size == Some(facts.size),
        metadata_of(facts).permissions == facts.permissions,
        metadata_of(facts).file_type == type_of(facts),
        facts.modified is None ==> metadata_of(facts).modified_at is None,
        facts.created is None ==> metadata_of(facts).created_at is None,
        facts.modified matches Some(at) ==> (at.nanos < 0 <==> metadata_of(facts).modified_at is None)
            && (0 <= at.nanos < 1_000_000_000 * 0x1_0000_0000_0000_0000 ==> metadata_of(
            facts,
        ).modified_at->0 * 1_000_000_000 <= at.nanos < (metadata_of(facts).modified_at->0 + 1)
            * 1_000_000_000),
        facts.created matches Some(at) ==> (at.nanos < 0 <==> metadata_of(facts).created_at is None)
            && (0 <= at.nanos < 1_000_000_000 * 0x1_0000_0000_0000_0000 ==> metadata_of(
            facts,
        ).created_at->0 * 1_000_000_000 <= at.nanos < (metadata_of(facts).created_at->0 + 1)
            * 1_000_000_000),
{
}

/// A file is removed as a file; a directory with all that is in it where that is asked for, and
/// else only where it is empty. A failure counts unless there was nothing and that is no matter.
pub proof fn removal_is_by_what_was_found(
    found: Result<FileFacts, IoFailure>,
    done: Result<(), IoFailure>,
    options: RemoveOptions,
)
    ensures
        found matches Ok(facts) ==> {
            let plan = removal_plan(found, options);
            &&& !facts.is_dir ==> plan == Ok::<Removal, ErrorView>(Removal::File)
            &&& facts.is_dir && options.recursive ==> plan == Ok::<Removal, ErrorView>(Removal::Tree)
            &&& facts.is_dir && !options.recursive ==> plan == Ok::<Removal, ErrorView>(
                Removal::Directory,
            )
        },
        found matches Err(failure) ==> {
            &&& removal_plan(found, options) is Ok <==> failure.kind is NotFound
                && options.ignore_not_found
            &&& removal_plan(found, options) matches Ok(plan) ==> plan is Nothing
        },
        done is Ok ==> removal_end(done, options) is Ok,
        done matches Err(failure) ==> (removal_end(done, options) is Ok <==> failure.kind is NotFound
            && options.ignore_not_found),
{
}

/// An entry of a kind that is not wanted is passed over; any other is listed as it was found, and
/// a directory is read in turn where the listing is to be deep.
pub proof fn entry_is_listed_as_found(v: ListerView, path: Seq<char>, facts: FileFacts)
    ensures
        ({
            let wanted = !(v.options.directories_only && !facts.is_dir) && !(v.options.files_only
                && facts.is_dir);
            let r = with_entry(v, path, facts);
            &&& !wanted ==> r == Ok::<ListerView, ErrorView>(v)
            &&& wanted ==> (r is Ok <==> facts.modified is Some && facts.modified->0.nanos >= 0)
            &&& wanted && r is Ok ==> {
                let w = r->Ok_0;
                let e = w.entries.last();
                &&& w.entries.len() == v.entries.len() + 1
                &&& w.entries.drop_last() == v.entries
                &&& e.path == path
                &&& e.size == facts.size
                &&& e.file_type == type_of(facts)
                &&& Some(e.modified_at) == facts.modified->0.seconds()
                &&& facts.is_dir && v.options.recursive ==> w.stack == v.stack.push(path)
                &&& !(facts.is_dir && v.options.recursive) ==> w.stack == v.stack
                &&& w.options == v.options
            }
        }),
{
    let r = with_entry(v, path, facts);
    if r is Ok && r->Ok_0.entries.len() > v.entries.len() {
        assert(r->Ok_0.entries.drop_last() =~= v.entries);
    }
}

/// What is answered to a request is what was found or done, with the reason where it failed.
pub proof fn answers_tell_what_was_found(
    facts: Option<FileFacts>,
    exists: ExistsResponse,
    done: Result<(), FileTransferError>,
    removed: RemoveResponse,
    found: Result<(FileMetadata, u64), FileTransferError>,
    told: MetadataResponse,
    listed: Result<Vec<FileInfo>, FileTransferError>,
    list: ListResponse,
)
    requires
        call_ensures(handle_exists_request, (facts,), exists),
        call_ensures(handle_remove_request, (done,), removed),
        call_ensures(handle_metadata_request, (found,), told),
        call_ensures(handle_list_request, (listed,), list),
    ensures
        exists.exists <==> facts is Some,
        facts matches Some(f) ==> exists.is_file == f.is_file && exists.is_directory == f.is_dir,
        facts is None ==> !exists.is_file && !exists.is_directory,
        removed.success <==> done is Ok,
        done is Ok ==> removed.error is None,
        done matches Err(e) ==> (removed.error matches Some(text) && text@ == error_text(e@)),
        told.found <==> found is Ok,
        found matches Ok(f) ==> told.metadata == Some(f.0) && told.size == Some(f.1)
            && told.error is None,
        found matches Err(e) ==> told.metadata is None && told.size is None && (told.error is None
            <==> e@ is FileNotFound),
        listed matches Ok(files) ==> shown_files(list.files@) == shown_files(files@)
            && list.error is None,
        listed matches Err(e) ==> shown_files(list.files@).len() == 0 && (list.error matches Some(
            text,
        ) && text@ == error_text(e@)),
{
}

/// A listing begins with the directory that is asked for, and reads each directory that is still
/// to be read once.
pub proof fn directories_are_read_one_by_one(
    dir_path: String,
    options: ListOptions,
    fresh: Lister,
    lister: &mut Lister,
    dir: Option<String>,
)
    requires
        call_ensures(Lister::new, (dir_path, options), fresh),
        call_ensures(Lister::next_directory, (lister,), dir),
    ensures
        fresh@.stack.len() == 1,
        fresh@.stack[0] == dir_path@,
        fresh@.entries.len() == 0,
        fresh@.options == options,
        dir is None <==> old(lister)@.stack.len() == 0,
        dir matches Some(d) ==> old(lister)@.stack == final(lister)@.stack.push(d@),
        final(lister)@.entries == old(lister)@.entries,
        final(lister)@.options == old(lister)@.options,
{
    if dir is Some {
        assert(old(lister)@.stack =~= final(lister)@.stack.push(dir->0@));
    }
}

/// What is asked for by another node is just what it says: a removal of its depth, or a listing by
/// name without a limit.
pub proof fn requests_are_taken_as_they_are(
    recursive: bool,
    flag: bool,
    removal: RemoveOptions,
    listing: ListOptions,
    facts: FileFacts,
    metadata: FileMetadata,
    kind: FileType,
    found: Result<(FileMetadata, u64), FileTransferError>,
)
    requires
        call_ensures(requested_removal, (recursive, flag), removal),
        call_ensures(requested_listing, (recursive, flag), listing),
        call_ensures(file_metadata_from_fs, (&facts,), metadata),
        call_ensures(file_type_from_fs, (&facts,), kind),
        call_ensures(metadata_with_size, (Ok(facts),), found),
    ensures
        removal.recursive == recursive,
        removal.ignore_not_found == flag,
        listing.recursive == recursive,
        listing.include_hidden == flag,
        !listing.files_only && !listing.directories_only,
        listing.pattern is None,
        listing.limit == 0,
        listing.sort_by is Name,
        metadata.size == Some(facts.size),
        metadata.permissions == facts.permissions,
        metadata.file_type == kind,
        kind is Directory <==> facts.is_dir,
        found matches Ok(f) && f.1 == facts.size && f.0 == metadata,
{
}

} // verus!
