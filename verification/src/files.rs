//! What the host reports of the file system, and the rules that admit a path
//! before anything is done with it.

use vstd::prelude::*;
use vstd::string::*;

use crate::frame::{
    base64_length, base64_text, encodable, encode_base64, lemma_base64_length, output_fits,
};

verus! {

/// What the host found at a path.
#[derive(Clone, Copy, Debug, PartialEq, Eq, Structural)]
pub struct PathStatus {
    /// Whether anything exists at the path.
    pub exists: bool,
    /// Whether it is a regular file.
    pub is_file: bool,
    /// Whether it is a directory.
    pub is_dir: bool,
}

/// Why a path is not taken.
#[derive(Debug)]
pub enum InputError {
    /// Nothing exists at the path of a file.
    FileMissing { path: String },
    /// Something exists at the path of a file, but it is no regular file.
    NotAFile { path: String },
    /// Nothing exists at the path of a directory.
    DirectoryMissing { path: String },
    /// Something exists at the path of a directory, but it is no directory.
    NotADirectory { path: String },
    /// Nothing exists at the path that a file was to be copied or moved from.
    SourceMissing { path: String },
    /// What is to be copied or moved is no regular file.
    SourceNotAFile { path: String },
    /// The place that a file was to be moved to is taken.
    DestinationExists { path: String },
    /// The file is larger than a preview may be.
    TooLarge { size: u64 },
}

/// The model of an [`InputError`].
pub enum Refusal {
    FileMissing { path: Seq<char> },
    NotAFile { path: Seq<char> },
    DirectoryMissing { path: Seq<char> },
    NotADirectory { path: Seq<char> },
    SourceMissing { path: Seq<char> },
    SourceNotAFile { path: Seq<char> },
    DestinationExists { path: Seq<char> },
    TooLarge { size: u64 },
}

impl View for InputError {
    type V = Refusal;

    open spec fn view(&self) -> Refusal {
        match self {
            InputError::FileMissing { path } => Refusal::FileMissing { path: path@ },
            InputError::NotAFile { path } => Refusal::NotAFile { path: path@ },
            InputError::DirectoryMissing { path } => Refusal::DirectoryMissing { path: path@ },
            InputError::NotADirectory { path } => Refusal::NotADirectory { path: path@ },
            InputError::SourceMissing { path } => Refusal::SourceMissing { path: path@ },
            InputError::SourceNotAFile { path } => Refusal::SourceNotAFile { path: path@ },
            InputError::DestinationExists { path } => Refusal::DestinationExists { path: path@ },
            InputError::TooLarge { size } => Refusal::TooLarge { size: *size },
        }
    }
}

impl Refusal {
    /// The refusal in words.
    pub open spec fn message(self) -> Seq<char> {
        match self {
            Refusal::FileMissing { path } => "File does not exist: "@ + path,
            Refusal::NotAFile { path } => "Path is not a file: "@ + path,
            Refusal::DirectoryMissing { path } => "Directory does not exist: "@ + path,
            Refusal::NotADirectory { path } => "Path is not a directory: "@ + path,
            Refusal::SourceMissing { path } => "Source file does not exist: "@ + path,
            Refusal::SourceNotAFile { path } => "Source path is not a file: "@ + path,
            Refusal::DestinationExists { path } => "Destination file already exists: "@ + path,
            Refusal::TooLarge { .. } => "File too large for thumbnail generation (max 50MB)"@,
        }
    }
}

/// A sentence that ends in a path.
fn sentence(opening: &str, path: &str) -> (text: String)
    ensures
        text@ == opening@ + path@,
{
    let mut text = opening.to_owned();
    text.append(path);
    text
}

impl InputError {
    /// The refusal in words.
    pub fn message(&self) -> (text: String)
        ensures
            text@ == self@.message(),
    {
        match self {
            InputError::FileMissing { path } => sentence("File does not exist: ", path.as_str()),
            InputError::NotAFile { path } => sentence("Path is not a file: ", path.as_str()),
            InputError::DirectoryMissing { path } => sentence(
                "Directory does not exist: ",
                path.as_str(),
            ),
            InputError::NotADirectory { path } => sentence(
                "Path is not a directory: ",
                path.as_str(),
            ),
            InputError::SourceMissing { path } => sentence(
                "Source file does not exist: ",
                path.as_str(),
            ),
            InputError::SourceNotAFile { path } => sentence(
                "Source path is not a file: ",
                path.as_str(),
            ),
            InputError::DestinationExists { path } => sentence(
                "Destination file already exists: ",
                path.as_str(),
            ),
            InputError::TooLarge { .. } => "File too large for thumbnail generation (max 50MB)"
                .to_owned(),
        }
    }
}

/// Largest file, in bytes, that is read whole for a preview.
pub const PREVIEW_LIMIT: u64 = 52428800;

/// Why a path is not taken as a regular file, if it is not: existence is
/// asked first.
pub open spec fn file_refusal(path: Seq<char>, status: PathStatus) -> Option<Refusal> {
    if !status.exists {
        Some(Refusal::FileMissing { path })
    } else if !status.is_file {
        Some(Refusal::NotAFile { path })
    } else {
        None
    }
}

/// Why a path is not taken as a directory, if it is not: existence is asked
/// first.
pub open spec fn directory_refusal(path: Seq<char>, status: PathStatus) -> Option<Refusal> {
    if !status.exists {
        Some(Refusal::DirectoryMissing { path })
    } else if !status.is_dir {
        Some(Refusal::NotADirectory { path })
    } else {
        None
    }
}

/// Why a path is not taken as the file to copy or move, if it is not:
/// existence is asked first.
pub open spec fn source_refusal(path: Seq<char>, status: PathStatus) -> Option<Refusal> {
    if !status.exists {
        Some(Refusal::SourceMissing { path })
    } else if !status.is_file {
        Some(Refusal::SourceNotAFile { path })
    } else {
        None
    }
}

/// Whether a directory exists at a path: something exists there, and it is a
/// directory.
pub fn directory_exists(status: &PathStatus) -> (found: bool)
    ensures
        found == (status.exists && status.is_dir),
{
    status.exists && status.is_dir
}

/// Whether anything exists at a path.
pub fn file_exists(status: &PathStatus) -> (found: bool)
    ensures
        found == status.exists,
{
    status.exists
}

/// The words that report a file as moved.
pub open spec fn moved_report(source: Seq<char>, destination: Seq<char>) -> Seq<char> {
    "File moved successfully from "@ + source + " to "@ + destination
}

/// The words that report a file as copied.
pub open spec fn copied_report(source: Seq<char>, destination: Seq<char>) -> Seq<char> {
    "File copied successfully from "@ + source + " to "@ + destination
}

/// Reports a file as moved.
pub fn moved_message(source: &str, destination: &str) -> (text: String)
    ensures
        text@ == moved_report(source@, destination@),
{
    let mut text = sentence("File moved successfully from ", source);
    text.append(" to ");
    text.append(destination);
    text
}

/// Reports a file as copied.
pub fn copied_message(source: &str, destination: &str) -> (text: String)
    ensures
        text@ == copied_report(source@, destination@),
{
    let mut text = sentence("File copied successfully from ", source);
    text.append(" to ");
    text.append(destination);
    text
}

/// Admits a path that holds a regular file.
pub fn require_file(path: &str, status: &PathStatus) -> (admitted: Result<(), InputError>)
    ensures
        match admitted {
            Ok(_) => file_refusal(path@, *status) is None,
            Err(error) => file_refusal(path@, *status) == Some(error@),
        },
{
    if !status.exists {
        Err(InputError::FileMissing { path: path.to_owned() })
    } else if !status.is_file {
        Err(InputError::NotAFile { path: path.to_owned() })
    } else {
        Ok(())
    }
}

/// Admits a path at which anything exists.
pub fn require_existing(path: &str, status: &PathStatus) -> (admitted: Result<(), InputError>)
    ensures
        match admitted {
            Ok(_) => status.exists,
            Err(error) => !status.exists && error@ == (Refusal::FileMissing { path: path@ }),
        },
{
    if !status.exists {
        Err(InputError::FileMissing { path: path.to_owned() })
    } else {
        Ok(())
    }
}

/// Admits a path that holds a directory.
pub fn require_directory(path: &str, status: &PathStatus) -> (admitted: Result<(), InputError>)
    ensures
        match admitted {
            Ok(_) => directory_refusal(path@, *status) is None,
            Err(error) => directory_refusal(path@, *status) == Some(error@),
        },
{
    if !status.exists {
        Err(InputError::DirectoryMissing { path: path.to_owned() })
    } else if !status.is_dir {
        Err(InputError::NotADirectory { path: path.to_owned() })
    } else {
        Ok(())
    }
}

/// Admits a regular file as what is to be copied or moved.
pub fn require_source(path: &str, status: &PathStatus) -> (admitted: Result<(), InputError>)
    ensures
        match admitted {
            Ok(_) => source_refusal(path@, *status) is None,
            Err(error) => source_refusal(path@, *status) == Some(error@),
        },
{
    if !status.exists {
        Err(InputError::SourceMissing { path: path.to_owned() })
    } else if !status.is_file {
        Err(InputError::SourceNotAFile { path: path.to_owned() })
    } else {
        Ok(())
    }
}

/// Admits a place to move a file to only where nothing exists yet.
pub fn require_vacant(path: &str, status: &PathStatus) -> (admitted: Result<(), InputError>)
    ensures
        match admitted {
            Ok(_) => !status.exists,
            Err(error) => status.exists && error@ == (Refusal::DestinationExists { path: path@ }),
        },
{
    if status.exists {
        Err(InputError::DestinationExists { path: path.to_owned() })
    } else {
        Ok(())
    }
}

/// Admits a file for a preview by its size: up to [`PREVIEW_LIMIT`] bytes.
pub fn require_preview_size(size: u64) -> (admitted: Result<(), InputError>)
    ensures
        match admitted {
            Ok(_) => size <= PREVIEW_LIMIT,
            Err(error) => size > PREVIEW_LIMIT && error@ == (Refusal::TooLarge { size }),
        },
{
    if size > PREVIEW_LIMIT {
        Err(InputError::TooLarge { size })
    } else {
        Ok(())
    }
}

/// The contents of a file as the text of a preview: their base64 encoding,
/// or nothing where they are too long to be encoded.
pub fn preview_text(contents: &[u8]) -> (preview: Option<String>)
    ensures
        match preview {
            Some(text) => {
                &&& encodable(contents@.len())
                &&& text@ == base64_text(contents@)
                &&& text@.len() == base64_length(contents@.len())
            },
            None => !encodable(contents@.len()),
        },
{
    if output_fits(contents.len()) {
        proof {
            lemma_base64_length(contents@);
        }
        Some(encode_base64(contents))
    } else {
        None
    }
}

/// What the host read of a directory entry's attributes.
#[derive(Clone, Copy, Debug, PartialEq, Eq, Structural)]
pub struct EntryAttributes {
    /// Whether the entry is a regular file.
    pub is_file: bool,
    /// Whether the entry is a directory.
    pub is_dir: bool,
    /// Size of the entry in bytes.
    pub length: u64,
    /// Time of the last change in whole seconds since the Unix epoch, where
    /// the system tells it.
    pub modified: Option<u64>,
}

/// A directory entry as the host read it.
#[derive(Debug)]
pub struct RawEntry {
    /// The name of the entry within its directory.
    pub name: String,
    /// The path of the entry.
    pub path: String,
    /// The attributes of the entry, where they could be read.
    pub attributes: Option<EntryAttributes>,
}

/// One entry of a directory listing.
#[derive(Debug)]
pub struct FileInfo {
    pub name: String,
    pub path: String,
    pub is_dir: bool,
    pub size: Option<u64>,
    pub modified: Option<u64>,
}

/// The size that a listing shows for an entry: its length where it is a
/// regular file whose attributes could be read.
pub open spec fn listed_size(attributes: Option<EntryAttributes>) -> Option<u64> {
    match attributes {
        Some(found) => if found.is_file {
            Some(found.length)
        } else {
            None
        },
        None => None,
    }
}

/// Whether a listing shows an entry as a directory: only where its
/// attributes could be read and say so.
pub open spec fn listed_as_directory(attributes: Option<EntryAttributes>) -> bool {
    match attributes {
        Some(found) => found.is_dir,
        None => false,
    }
}

/// The time of change that a listing shows for an entry.
pub open spec fn listed_modified(attributes: Option<EntryAttributes>) -> Option<u64> {
    match attributes {
        Some(found) => found.modified,
        None => None,
    }
}

impl FileInfo {
    /// Describes a directory entry from its name, its path and its
    /// attributes, where they could be read.
    pub fn describe(name: String, path: String, attributes: Option<EntryAttributes>) -> (info:
        FileInfo)
        ensures
            info.name == name,
            info.path == path,
            info.is_dir == listed_as_directory(attributes),
            info.size == listed_size(attributes),
            info.modified == listed_modified(attributes),
    {
        match attributes {
            Some(found) => FileInfo {
                name,
                path,
                is_dir: found.is_dir,
                size: if found.is_file {
                    Some(found.length)
                } else {
                    None
                },
                modified: found.modified,
            },
            None => FileInfo { name, path, is_dir: false, size: None, modified: None },
        }
    }
}

/// What a listing shows for an entry.
pub open spec fn listed(entry: RawEntry) -> FileInfo {
    FileInfo {
        name: entry.name,
        path: entry.path,
        is_dir: listed_as_directory(entry.attributes),
        size: listed_size(entry.attributes),
        modified: listed_modified(entry.attributes),
    }
}

/// Lists the directory at `dir_path` from the entries that the host read in
/// it: one description for each entry, in the order in which they were read.
/// A path that holds no directory is refused.
pub fn list_directory(dir_path: &str, status: &PathStatus, entries: &Vec<RawEntry>) -> (listing:
    Result<Vec<FileInfo>, InputError>)
    ensures
        match listing {
            Ok(files) => {
                &&& directory_refusal(dir_path@, *status) is None
                &&& files@.len() == entries@.len()
                &&& forall|i: int|
                    0 <= i < files@.len() ==> #[trigger] files@[i] == listed(entries@[i])
            },
            Err(error) => directory_refusal(dir_path@, *status) == Some(error@),
        },
{
    match require_directory(dir_path, status) {
        Err(error) => {
            return Err(error);
        },
        Ok(_) => {},
    }
    let mut files: Vec<FileInfo> = Vec::new();
    let mut i: usize = 0;
    while i < entries.len()
        invariant
            i <= entries@.len(),
            files@.len() == i,
            forall|k: int| 0 <= k < i ==> #[trigger] files@[k] == listed(entries@[k]),
        decreases entries@.len() - i,
    {
        let entry = &entries[i];
        files.push(FileInfo::describe(entry.name.clone(), entry.path.clone(), entry.attributes));
        i += 1;
    }
    Ok(files)
}

} // verus!
