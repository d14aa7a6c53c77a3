//! The file-service data model: file metadata, permissions, request and
//! response messages, and the errors the service answers with. Each type with
//! strings in it has a view over character sequences that contracts use.

use vstd::prelude::*;

verus! {

/// Kind of a catalogue entry.
#[derive(Clone, Copy, Debug, PartialEq, Eq, Structural)]
pub enum FileType {
    Unknown,
    Regular,
    Directory,
    Symlink,
}

/// Synchronisation state of a catalogue entry.
#[derive(Clone, Copy, Debug, PartialEq, Eq, Structural)]
pub enum SyncStatus {
    Unknown,
    Synced,
    Pending,
    Syncing,
    Error,
    Conflict,
}

/// POSIX-style permissions of an entry.
#[derive(Debug)]
pub struct FilePermissions {
    pub mode: u32,
    pub owner: String,
    pub group: String,
    pub readable: bool,
    pub writable: bool,
    pub executable: bool,
}

/// The mathematical value of a `FilePermissions`.
pub struct PermissionsView {
    pub mode: u32,
    pub owner: Seq<char>,
    pub group: Seq<char>,
    pub readable: bool,
    pub writable: bool,
    pub executable: bool,
}

impl View for FilePermissions {
    type V = PermissionsView;

    open spec fn view(&self) -> PermissionsView {
        PermissionsView {
            mode: self.mode,
            owner: self.owner@,
            group: self.group@,
            readable: self.readable,
            writable: self.writable,
            executable: self.executable,
        }
    }
}

impl FilePermissions {
    /// A copy with the same value.
    pub fn duplicate(&self) -> (r: Self)
        ensures
            r@ == self@,
    {
        FilePermissions {
            mode: self.mode,
            owner: self.owner.clone(),
            group: self.group.clone(),
            readable: self.readable,
            writable: self.writable,
            executable: self.executable,
        }
    }
}

/// The view of an optional permissions value.
pub open spec fn permissions_view(p: Option<FilePermissions>) -> Option<PermissionsView> {
    match p {
        Some(q) => Some(q@),
        None => None,
    }
}

/// A copy of an optional permissions value.
pub fn duplicate_permissions(p: &Option<FilePermissions>) -> (r: Option<FilePermissions>)
    ensures
        permissions_view(r) == permissions_view(*p),
{
    match p {
        Some(q) => Some(q.duplicate()),
        None => None,
    }
}

/// Metadata of one catalogue entry (a file or a directory).
#[derive(Debug)]
pub struct FileInfo {
    pub file_id: String,
    pub name: String,
    pub path: String,
    pub parent_path: String,
    pub size: i64,
    pub created_at: i64,
    pub modified_at: i64,
    pub accessed_at: i64,
    pub file_type: FileType,
    pub mime_type: String,
    pub checksum: String,
    pub permissions: Option<FilePermissions>,
    pub is_directory: bool,
    pub is_symlink: bool,
    pub chunk_count: i32,
    pub chunk_ids: Vec<String>,
    pub replication_factor: i32,
    pub is_compressed: bool,
    pub is_encrypted: bool,
    pub sync_status: SyncStatus,
}

/// The mathematical value of a `FileInfo`.
pub struct FileRecord {
    pub file_id: Seq<char>,
    pub name: Seq<char>,
    pub path: Seq<char>,
    pub parent_path: Seq<char>,
    pub size: i64,
    pub created_at: i64,
    pub modified_at: i64,
    pub accessed_at: i64,
    pub file_type: FileType,
    pub mime_type: Seq<char>,
    pub checksum: Seq<char>,
    pub permissions: Option<PermissionsView>,
    pub is_directory: bool,
    pub is_symlink: bool,
    pub chunk_count: i32,
    pub chunk_ids: Seq<Seq<char>>,
    pub replication_factor: i32,
    pub is_compressed: bool,
    pub is_encrypted: bool,
    pub sync_status: SyncStatus,
}

/// The character views of a vector of strings.
pub open spec fn strings_view(v: Seq<String>) -> Seq<Seq<char>> {
    v.map_values(|s: String| s@)
}

impl View for FileInfo {
    type V = FileRecord;

    open spec fn view(&self) -> FileRecord {
        FileRecord {
            file_id: self.file_id@,
            name: self.name@,
            path: self.path@,
            parent_path: self.parent_path@,
            size: self.size,
            created_at: self.created_at,
            modified_at: self.modified_at,
            accessed_at: self.accessed_at,
            file_type: self.file_type,
            mime_type: self.mime_type@,
            checksum: self.checksum@,
            permissions: permissions_view(self.permissions),
            is_directory: self.is_directory,
            is_symlink: self.is_symlink,
            chunk_count: self.chunk_count,
            chunk_ids: strings_view(self.chunk_ids@),
            replication_factor: self.replication_factor,
            is_compressed: self.is_compressed,
            is_encrypted: self.is_encrypted,
            sync_status: self.sync_status,
        }
    }
}

/// A copy of a vector of strings with the same character views.
pub fn duplicate_strings(v: &Vec<String>) -> (r: Vec<String>)
    ensures
        strings_view(r@) == strings_view(v@),
{
    let mut r: Vec<String> = Vec::new();
    let mut i: usize = 0;
    while i < v.len()
        invariant
            i <= v.len(),
            r@.len() == i,
            forall|j: int| 0 <= j < i ==> #[trigger] r@[j]@ == v@[j]@,
        decreases v.len() - i,
    {
        r.push(v[i].clone());
        i = i + 1;
    }
    assert(strings_view(r@) =~= strings_view(v@));
    r
}

impl FileInfo {
    /// A copy with the same value.
    pub fn duplicate(&self) -> (r: Self)
        ensures
            r@ == self@,
    {
        FileInfo {
            file_id: self.file_id.clone(),
            name: self.name.clone(),
            path: self.path.clone(),
            parent_path: self.parent_path.clone(),
            size: self.size,
            created_at: self.created_at,
            modified_at: self.modified_at,
            accessed_at: self.accessed_at,
            file_type: self.file_type,
            mime_type: self.mime_type.clone(),
            checksum: self.checksum.clone(),
            permissions: duplicate_permissions(&self.permissions),
            is_directory: self.is_directory,
            is_symlink: self.is_symlink,
            chunk_count: self.chunk_count,
            chunk_ids: duplicate_strings(&self.chunk_ids),
            replication_factor: self.replication_factor,
            is_compressed: self.is_compressed,
            is_encrypted: self.is_encrypted,
            sync_status: self.sync_status,
        }
    }
}

/// The views of a sequence of entries.
pub open spec fn records(v: Seq<FileInfo>) -> Seq<FileRecord> {
    v.map_values(|f: FileInfo| f@)
}

/// The permissions every new file is given: mode 0o644, owner "user", group
/// "group", readable and writable but not executable.
pub open spec fn default_permissions_view() -> PermissionsView {
    PermissionsView {
        mode: 0o644,
        owner: "user"@,
        group: "group"@,
        readable: true,
        writable: true,
        executable: false,
    }
}

/// What kind of failure a request ended in.
#[derive(Clone, Copy, Debug, PartialEq, Eq, Structural)]
pub enum ErrorCode {
    InvalidArgument,
    NotFound,
    AlreadyExists,
    FailedPrecondition,
    Internal,
}

/// A failed request: its kind and a human-readable message.
#[derive(Debug)]
pub struct FileServiceError {
    pub code: ErrorCode,
    pub message: String,
}

/// The mathematical value of a `FileServiceError`.
pub struct ErrorView {
    pub code: ErrorCode,
    pub message: Seq<char>,
}

impl View for FileServiceError {
    type V = ErrorView;

    open spec fn view(&self) -> ErrorView {
        ErrorView { code: self.code, message: self.message@ }
    }
}

/// The answer to a lookup that names neither an id nor a path.
pub open spec fn missing_key_error() -> ErrorView {
    ErrorView { code: ErrorCode::InvalidArgument, message: "Either file_id or path must be provided"@ }
}

/// The answer to a lookup that finds nothing.
pub open spec fn not_found_error() -> ErrorView {
    ErrorView { code: ErrorCode::NotFound, message: "File not found"@ }
}

/// The answer to creating a directory that already exists.
pub open spec fn already_exists_error() -> ErrorView {
    ErrorView { code: ErrorCode::AlreadyExists, message: "Directory already exists"@ }
}

/// The answer to deleting a directory without `recursive` or `force`.
pub open spec fn not_recursive_error() -> ErrorView {
    ErrorView {
        code: ErrorCode::FailedPrecondition,
        message: "Cannot delete directory without recursive flag"@,
    }
}

/// The answer to an upload whose stream broke off.
pub open spec fn stream_error() -> ErrorView {
    ErrorView { code: ErrorCode::Internal, message: "Upload stream error"@ }
}

/// A request to list the entries of a directory.
#[derive(Debug)]
pub struct ListFilesRequest {
    pub path: String,
    pub recursive: bool,
    pub include_hidden: bool,
}

/// The entries listed, the directory asked for, and their count and size.
#[derive(Debug)]
pub struct ListFilesResponse {
    pub files: Vec<FileInfo>,
    pub current_path: String,
    pub total_count: i32,
    pub total_size: i64,
}

/// What a client announces about a file it uploads.
#[derive(Debug)]
pub struct UploadFileMetadata {
    pub name: String,
    pub path: String,
    pub size: i64,
    pub mime_type: String,
    pub checksum: String,
    pub compress: bool,
    pub encrypt: bool,
}

/// The mathematical value of an `UploadFileMetadata`.
pub struct MetadataView {
    pub name: Seq<char>,
    pub path: Seq<char>,
    pub size: i64,
    pub mime_type: Seq<char>,
    pub checksum: Seq<char>,
    pub compress: bool,
    pub encrypt: bool,
}

impl View for UploadFileMetadata {
    type V = MetadataView;

    open spec fn view(&self) -> MetadataView {
        MetadataView {
            name: self.name@,
            path: self.path@,
            size: self.size,
            mime_type: self.mime_type@,
            checksum: self.checksum@,
            compress: self.compress,
            encrypt: self.encrypt,
        }
    }
}

impl UploadFileMetadata {
    /// A copy with the same value.
    pub fn duplicate(&self) -> (r: Self)
        ensures
            r@ == self@,
    {
        UploadFileMetadata {
            name: self.name.clone(),
            path: self.path.clone(),
            size: self.size,
            mime_type: self.mime_type.clone(),
            checksum: self.checksum.clone(),
            compress: self.compress,
            encrypt: self.encrypt,
        }
    }
}

/// The payload of one upload message: the metadata or a chunk of data.
#[derive(Debug)]
pub enum UploadData {
    Metadata(UploadFileMetadata),
    Chunk(Vec<u8>),
}

/// One message of an upload stream.
#[derive(Debug)]
pub struct UploadFileRequest {
    pub data: Option<UploadData>,
}

/// The mathematical value of an upload message.
pub enum UploadItem {
    Meta(MetadataView),
    Bytes(Seq<u8>),
    Empty,
}

impl View for UploadFileRequest {
    type V = UploadItem;

    open spec fn view(&self) -> UploadItem {
        match self.data {
            Some(UploadData::Metadata(m)) => UploadItem::Meta(m@),
            Some(UploadData::Chunk(c)) => UploadItem::Bytes(c@),
            None => UploadItem::Empty,
        }
    }
}

/// The answer to an upload.
#[derive(Debug)]
pub struct UploadFileResponse {
    pub success: bool,
    pub message: String,
    pub file_info: Option<FileInfo>,
    pub bytes_uploaded: i64,
}

/// A request to delete an entry, by id or (if the id is empty) by path.
#[derive(Debug)]
pub struct DeleteFileRequest {
    pub file_id: String,
    pub path: String,
    pub recursive: bool,
    pub force: bool,
}

/// The answer to a deletion.
#[derive(Debug)]
pub struct DeleteFileResponse {
    pub success: bool,
    pub message: String,
    pub deleted_count: i32,
}

/// A request to create a directory.
#[derive(Debug)]
pub struct CreateDirectoryRequest {
    pub path: String,
    pub permissions: Option<FilePermissions>,
}

/// The answer to creating a directory.
#[derive(Debug)]
pub struct CreateDirectoryResponse {
    pub success: bool,
    pub message: String,
    pub directory_info: Option<FileInfo>,
}

/// A request for the metadata of an entry, by id or (if the id is empty) by
/// path.
#[derive(Debug)]
pub struct GetFileInfoRequest {
    pub file_id: String,
    pub path: String,
    pub include_chunks: bool,
}

/// A request for the synchronisation state under a path (everything when the
/// path is empty).
#[derive(Debug)]
pub struct GetSyncStatusRequest {
    pub path: String,
}

/// Synchronisation counters and the entries that still need attention.
#[derive(Debug)]
pub struct SyncStatusResponse {
    pub overall_status: SyncStatus,
    pub pending_uploads: i32,
    pub pending_downloads: i32,
    pub syncing_files: i32,
    pub error_files: i32,
    pub conflict_files: i32,
    pub bytes_to_upload: i64,
    pub bytes_to_download: i64,
    pub pending_files: Vec<FileInfo>,
}

} // verus!
