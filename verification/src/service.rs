//! The hybrid file service: the catalogue of entries, the transfer sessions,
//! the portal-port allocator and a file counter, with the request handlers
//! that read and change them.

use vstd::prelude::*;
use vstd::slice::slice_to_vec;
use crate::catalog::{
    FileCatalog, catalog_insert, catalog_wf, has_id, outside_prefix, position_of_id, total_size,
    under_prefix, lemma_filter_prefix,
};
use crate::download::DownloadFileRequest;
use crate::external::{
    file_name_of, instant_now, is_lower_hex_digit, parent_of, path_file_name, path_parent,
    random_token, unix_time_now,
};
use crate::model::{
    CreateDirectoryRequest, CreateDirectoryResponse, DeleteFileRequest, DeleteFileResponse,
    ErrorCode, ErrorView, FileInfo, FilePermissions, FileRecord, FileServiceError, FileType,
    GetFileInfoRequest, GetSyncStatusRequest, ListFilesRequest, ListFilesResponse, MetadataView,
    PermissionsView, SyncStatus, SyncStatusResponse, UploadData, UploadFileMetadata,
    UploadFileRequest, UploadFileResponse, UploadItem, already_exists_error,
    default_permissions_view, missing_key_error, not_found_error, not_recursive_error,
    permissions_view, records, stream_error,
};
use crate::text::{
    decimal, has_prefix, join2, join3, owned, starts_with, starts_with_char, u64_to_decimal,
};
use crate::transport::{
    PortAllocator, PortalPlan, SessionRecord, SessionTable, TransferSession, TransferStats,
    TransportMode, bytes_moved, duplicate_text, is_plan_for, is_shared_memory, is_upload_mode,
    opt_text, plan_data_portal, port_after, select_transport_mode, transport_for,
};

verus! {

/// The mathematical state of the service.
pub struct ServiceView {
    pub files: Seq<FileRecord>,
    pub sessions: Seq<SessionRecord>,
    pub file_counter: u64,
    pub next_port: u16,
}

/// Whether some entry has the given path.
pub open spec fn has_path(s: Seq<FileRecord>, path: Seq<char>) -> bool {
    exists|i: int| 0 <= i < s.len() && #[trigger] s[i].path == path
}

/// `i` is the first position whose entry has the given path.
pub open spec fn is_first_with_path(s: Seq<FileRecord>, path: Seq<char>, i: int) -> bool {
    0 <= i < s.len() && s[i].path == path && forall|j: int| 0 <= j < i ==> #[trigger] s[j].path != path
}

/// The first position whose entry has the given path (meaningful where
/// `has_path`).
pub open spec fn first_with_path(s: Seq<FileRecord>, path: Seq<char>) -> int {
    choose|i: int| is_first_with_path(s, path, i)
}

/// Which entry a request names: by id when the id is not empty, else by path
/// (the first entry with it), else none (an invalid request).
pub open spec fn locate(s: Seq<FileRecord>, file_id: Seq<char>, path: Seq<char>) -> Result<int, ErrorView> {
    if file_id.len() > 0 {
        if has_id(s, file_id) {
            Ok(position_of_id(s, file_id))
        } else {
            Err(not_found_error())
        }
    } else if path.len() > 0 {
        if has_path(s, path) {
            Ok(first_with_path(s, path))
        } else {
            Err(not_found_error())
        }
    } else {
        Err(missing_key_error())
    }
}

/// An entry as `get_file_info` reports it: without chunk ids (and with a
/// chunk count of 0) unless they were asked for.
pub open spec fn reported_info(r: FileRecord, include_chunks: bool) -> FileRecord {
    if include_chunks {
        r
    } else {
        FileRecord { chunk_ids: Seq::empty(), chunk_count: 0, ..r }
    }
}

/// Whether an entry's name marks it hidden (starts with a dot).
pub open spec fn is_hidden(r: FileRecord) -> bool {
    r.name.len() > 0 && r.name[0] == '.'
}

/// The entries a listing shows: those whose parent is `path` (or, when
/// recursive, whose parent path starts with `path`), hidden ones only when
/// asked for.
pub open spec fn listed(path: Seq<char>, recursive: bool, include_hidden: bool) -> spec_fn(FileRecord) -> bool {
    |r: FileRecord|
        (if recursive {
            has_prefix(r.parent_path, path)
        } else {
            r.parent_path == path
        }) && (include_hidden || !is_hidden(r))
}

/// The name of the `n`-th generated file id: "file_" and `n` in decimal,
/// padded with zeros to at least ten digits.
pub open spec fn numbered_file_id(n: nat) -> Seq<char> {
    let d = decimal(n);
    "file_"@ + Seq::new(if d.len() < 10 { (10 - d.len()) as nat } else { 0 }, |i: int| '0') + d
}

/// The metadata of an upload: its last metadata message, if any.
pub open spec fn last_metadata(items: Seq<UploadItem>) -> Option<MetadataView>
    decreases items.len(),
{
    if items.len() == 0 {
        None
    } else {
        match items.last() {
            UploadItem::Meta(m) => Some(m),
            _ => last_metadata(items.drop_last()),
        }
    }
}

/// The data of an upload: its chunks, in order, one after another.
pub open spec fn uploaded_data(items: Seq<UploadItem>) -> Seq<u8>
    decreases items.len(),
{
    if items.len() == 0 {
        Seq::empty()
    } else {
        match items.last() {
            UploadItem::Bytes(b) => uploaded_data(items.drop_last()) + b,
            _ => uploaded_data(items.drop_last()),
        }
    }
}

/// The data of a prefix of an upload is no longer than the whole.
pub proof fn lemma_uploaded_prefix(items: Seq<UploadItem>, i: int)
    requires
        0 <= i <= items.len(),
    ensures
        uploaded_data(items.take(i)).len() <= uploaded_data(items).len(),
    decreases items.len() - i,
{
    if i < items.len() {
        lemma_uploaded_prefix(items, i + 1);
        assert(items.take(i + 1).drop_last() =~= items.take(i));
    } else {
        assert(items.take(i) =~= items);
    }
}

/// The views of the messages of an upload stream.
pub open spec fn upload_items(v: Seq<UploadFileRequest>) -> Seq<UploadItem> {
    v.map_values(|r: UploadFileRequest| r@)
}

/// An upload whose messages have all been received, waiting for its
/// data-portal plan to be carried out and its data to be stored.
#[derive(Debug)]
pub struct PendingUpload {
    pub metadata: UploadFileMetadata,
    pub data: Vec<u8>,
    pub bytes_uploaded: i64,
    pub session_id: String,
    pub mode: TransportMode,
    pub plan: PortalPlan,
}

/// The first step of an upload: either an answer already (no metadata came)
/// or an upload waiting to be completed.
#[derive(Debug)]
pub enum UploadStart {
    NoMetadata(UploadFileResponse),
    Ready(PendingUpload),
}

/// A session id as the service generates them: 32 lowercase hex digits.
pub open spec fn is_session_token(t: Seq<char>) -> bool {
    t.len() == 32 && forall|i: int| 0 <= i < 32 ==> #[trigger] is_lower_hex_digit(t[i])
}

/// What the first step of an upload gives for the received messages, whether
/// the stream broke off, and the session id it was given.
pub open spec fn upload_started(
    items: Seq<UploadItem>,
    stream_failed: bool,
    session_id: Seq<char>,
    r: Result<UploadStart, FileServiceError>,
) -> bool {
    if stream_failed {
        r matches Err(e) && e@ == stream_error()
    } else {
        match last_metadata(items) {
            None => r matches Ok(UploadStart::NoMetadata(resp)) && !resp.success && resp.message@
                == "No metadata received"@ && resp.file_info is None && resp.bytes_uploaded == 0,
            Some(m) => r matches Ok(UploadStart::Ready(p)) && p.metadata@ == m && p.data@
                == uploaded_data(items) && p.bytes_uploaded == uploaded_data(items).len()
                && p.session_id@ == session_id && p.mode == transport_for(None) && is_plan_for(
                p.plan,
                session_id,
                p.mode,
                p.bytes_uploaded as u64,
            ),
        }
    }
}

/// The catalogue entry an upload creates.
pub open spec fn upload_record(
    meta: MetadataView,
    session_id: Seq<char>,
    bytes: i64,
    now: i64,
    parent: Option<Seq<char>>,
    stored: bool,
) -> FileRecord {
    let file_id = "file_"@ + session_id;
    FileRecord {
        file_id: file_id,
        name: meta.name,
        path: meta.path,
        parent_path: match parent {
            Some(p) => p,
            None => "/"@,
        },
        size: bytes,
        created_at: now,
        modified_at: now,
        accessed_at: now,
        file_type: FileType::Regular,
        mime_type: meta.mime_type,
        checksum: meta.checksum,
        permissions: Some(default_permissions_view()),
        is_directory: false,
        is_symlink: false,
        chunk_count: 1,
        chunk_ids: seq!["chunk_"@ + file_id],
        replication_factor: 3,
        is_compressed: meta.compress,
        is_encrypted: meta.encrypt,
        sync_status: if stored {
            SyncStatus::Synced
        } else {
            SyncStatus::Error
        },
    }
}

/// The transfer session an upload records.
pub open spec fn upload_session(
    session_id: Seq<char>,
    mode: TransportMode,
    bytes: i64,
    started: std::time::Instant,
    portal: Option<Seq<char>>,
) -> SessionRecord {
    SessionRecord {
        session_id,
        mode,
        file_size: bytes as u64,
        transferred_bytes: bytes as u64,
        start_time: started,
        data_portal_address: portal,
    }
}

/// The message of a completed upload, naming the portal when there is one.
pub open spec fn upload_message(portal: Option<Seq<char>>) -> Seq<char> {
    match portal {
        Some(a) => "File uploaded successfully via hybrid architecture"@ + " - Data Portal: "@ + a,
        None => "File uploaded successfully via hybrid architecture"@,
    }
}

/// The state after an upload completes and the answer it gives.
pub open spec fn upload_finished(
    before: ServiceView,
    after: ServiceView,
    pending: PendingUpload,
    portal: Option<Seq<char>>,
    stored: bool,
    now: i64,
    started: std::time::Instant,
    parent: Option<Seq<char>>,
    resp: UploadFileResponse,
) -> bool {
    let rec = upload_record(
        pending.metadata@,
        pending.session_id@,
        pending.bytes_uploaded,
        now,
        parent,
        stored,
    );
    &&& after == ServiceView {
        files: catalog_insert(before.files, rec),
        sessions: crate::transport::sessions_insert(
            before.sessions,
            upload_session(pending.session_id@, pending.mode, pending.bytes_uploaded, started, portal),
        ),
        ..before
    }
    &&& resp.success
    &&& resp.message@ == upload_message(portal)
    &&& resp.file_info matches Some(f) && f@ == rec
    &&& resp.bytes_uploaded == pending.bytes_uploaded
}

/// The outcome of a deletion: the catalogue after it and how many entries
/// went, or the error. A directory with `recursive` takes with it every entry
/// whose path starts with its own (as a string); any other entry goes alone,
/// but a directory only with `force`.
pub open spec fn delete_outcome(
    s: Seq<FileRecord>,
    file_id: Seq<char>,
    path: Seq<char>,
    recursive: bool,
    force: bool,
) -> Result<(Seq<FileRecord>, nat), ErrorView> {
    match locate(s, file_id, path) {
        Err(e) => Err(e),
        Ok(i) => {
            let f = s[i];
            if f.is_directory && recursive {
                Ok((s.filter(outside_prefix(f.path)), s.filter(under_prefix(f.path)).len()))
            } else if !f.is_directory || force {
                Ok((s.remove(i), 1))
            } else {
                Err(not_recursive_error())
            }
        },
    }
}

/// The count a deletion reports fits an `i32`.
pub open spec fn delete_count_fits(
    s: Seq<FileRecord>,
    file_id: Seq<char>,
    path: Seq<char>,
    recursive: bool,
    force: bool,
) -> bool {
    delete_outcome(s, file_id, path, recursive, force) is Ok ==> delete_outcome(
        s,
        file_id,
        path,
        recursive,
        force,
    )->Ok_0.1 <= i32::MAX
}

/// The message of a deletion of `n` entries.
pub open spec fn deleted_message(n: nat) -> Seq<char> {
    "Successfully deleted "@ + decimal(n) + " file(s)"@
}

/// Whether some directory entry has exactly the given path.
pub open spec fn has_directory(s: Seq<FileRecord>, path: Seq<char>) -> bool {
    exists|j: int| 0 <= j < s.len() && #[trigger] s[j].path == path && s[j].is_directory
}

/// The catalogue entry `create_directory` makes.
pub open spec fn directory_record(
    path: Seq<char>,
    token: Seq<char>,
    now: i64,
    name: Option<Seq<char>>,
    parent: Option<Seq<char>>,
    permissions: Option<PermissionsView>,
) -> FileRecord {
    FileRecord {
        file_id: "dir_"@ + token,
        name: match name {
            Some(n) => n,
            None => Seq::empty(),
        },
        path,
        parent_path: match parent {
            Some(p) => p,
            None => "/"@,
        },
        size: 0,
        created_at: now,
        modified_at: now,
        accessed_at: now,
        file_type: FileType::Directory,
        mime_type: "inode/directory"@,
        checksum: Seq::empty(),
        permissions: match permissions {
            Some(p) => Some(p),
            None => Some(default_permissions_view()),
        },
        is_directory: true,
        is_symlink: false,
        chunk_count: 0,
        chunk_ids: Seq::empty(),
        replication_factor: 1,
        is_compressed: false,
        is_encrypted: false,
        sync_status: SyncStatus::Synced,
    }
}

/// The state after `create_directory` and its answer, for the names and time
/// it was given.
pub open spec fn directory_created(
    before: ServiceView,
    after: ServiceView,
    path: Seq<char>,
    permissions: Option<PermissionsView>,
    token: Seq<char>,
    now: i64,
    name: Option<Seq<char>>,
    parent: Option<Seq<char>>,
    r: Result<CreateDirectoryResponse, FileServiceError>,
) -> bool {
    if has_directory(before.files, path) {
        &&& r matches Err(e) && e@ == already_exists_error()
        &&& after == before
    } else {
        let rec = directory_record(path, token, now, name, parent, permissions);
        &&& r matches Ok(resp) && resp.success && resp.message@ == "Directory created successfully"@
            && (resp.directory_info matches Some(f) && f@ == rec)
        &&& after == ServiceView { files: catalog_insert(before.files, rec), ..before }
    }
}

/// Entries a sync-status query covers: all when the path is empty, else
/// those whose path starts with it.
pub open spec fn in_scope(path: Seq<char>, r: FileRecord) -> bool {
    path.len() == 0 || has_prefix(r.path, path)
}

/// Covered entries in a given state.
pub open spec fn scoped_with(path: Seq<char>, st: SyncStatus) -> spec_fn(FileRecord) -> bool {
    |r: FileRecord| in_scope(path, r) && r.sync_status == st
}

/// Covered entries that need attention: pending, in error, or in conflict.
pub open spec fn scoped_attention(path: Seq<char>) -> spec_fn(FileRecord) -> bool {
    |r: FileRecord|
        in_scope(path, r) && (r.sync_status == SyncStatus::Pending || r.sync_status
            == SyncStatus::Error || r.sync_status == SyncStatus::Conflict)
}

/// The counters of a sync-status query under `path` fit their types: each
/// count in an `i32`, the pending bytes in an `i64`.
pub open spec fn sync_counts_fit(s: Seq<FileRecord>, path: Seq<char>) -> bool {
    &&& s.filter(scoped_with(path, SyncStatus::Pending)).len() <= i32::MAX
    &&& s.filter(scoped_with(path, SyncStatus::Syncing)).len() <= i32::MAX
    &&& s.filter(scoped_with(path, SyncStatus::Error)).len() <= i32::MAX
    &&& s.filter(scoped_with(path, SyncStatus::Conflict)).len() <= i32::MAX
    &&& total_size(s.filter(scoped_with(path, SyncStatus::Pending))) <= i64::MAX
}

/// The overall state from the counters: an error if anything is in error or
/// conflict, else syncing if anything is syncing or waiting, else synced.
pub open spec fn overall_status(errors: int, conflicts: int, syncing: int, pending: int) -> SyncStatus {
    if errors > 0 || conflicts > 0 {
        SyncStatus::Error
    } else if syncing > 0 || pending > 0 {
        SyncStatus::Syncing
    } else {
        SyncStatus::Synced
    }
}

/// Whether a listing shows an entry (see `listed`).
pub fn is_listed(e: &FileInfo, path: &String, recursive: bool, include_hidden: bool) -> (b: bool)
    ensures
        b == listed(path@, recursive, include_hidden)(e@),
{
    let in_scope = if recursive {
        starts_with(e.parent_path.as_str(), path.as_str())
    } else {
        e.parent_path == *path
    };
    let visible = include_hidden || !starts_with_char(e.name.as_str(), '.');
    in_scope && visible
}

/// A download ready to stream: the metadata of the entry and the portal
/// session id.
#[derive(Debug)]
pub struct DownloadTicket {
    pub info: FileInfo,
    pub session_id: String,
}

/// The hybrid file service.
pub struct HybridFileServiceV2 {
    files: FileCatalog,
    file_counter: u64,
    active_sessions: SessionTable,
    portal_port_allocator: PortAllocator,
}

impl View for HybridFileServiceV2 {
    type V = ServiceView;

    closed spec fn view(&self) -> ServiceView {
        ServiceView {
            files: self.files@,
            sessions: self.active_sessions@,
            file_counter: self.file_counter,
            next_port: self.portal_port_allocator.next_port(),
        }
    }
}

impl HybridFileServiceV2 {
    /// The service invariant: a well-formed catalogue, unique session ids,
    /// and the next portal port within 9090..=9200.
    pub closed spec fn wf(&self) -> bool {
        &&& self.files.wf()
        &&& self.active_sessions.wf()
        &&& self.portal_port_allocator.wf()
    }

    /// What the invariant says of the state.
    pub proof fn lemma_wf(&self)
        requires
            self.wf(),
        ensures
            catalog_wf(self@.files),
            crate::transport::session_ids_unique(self@.sessions),
            9090 <= self@.next_port <= 9200,
    {
    }

    /// A service with no entries and no sessions, whose first portal port is
    /// 9090. The storage path is not used.
    pub fn new(_storage_path: String) -> (s: Self)
        ensures
            s.wf(),
            s@.files == Seq::<FileRecord>::empty(),
            s@.sessions == Seq::<SessionRecord>::empty(),
            s@.file_counter == 0,
            s@.next_port == 9090,
    {
        HybridFileServiceV2 {
            files: FileCatalog::new(),
            file_counter: 0,
            active_sessions: SessionTable::new(),
            portal_port_allocator: PortAllocator::new(),
        }
    }

    /// A service for the default storage path "/tmp/librorum_storage".
    pub fn new_default() -> (s: Self)
        ensures
            s.wf(),
            s@.files == Seq::<FileRecord>::empty(),
            s@.sessions == Seq::<SessionRecord>::empty(),
            s@.file_counter == 0,
            s@.next_port == 9090,
    {
        Self::new(owned("/tmp/librorum_storage"))
    }

    /// The permissions every new file is given: mode 0o644, owner "user",
    /// group "group", readable and writable but not executable.
    pub fn create_file_permissions() -> (p: FilePermissions)
        ensures
            p@ == default_permissions_view(),
    {
        FilePermissions {
            mode: 0o644,
            owner: owned("user"),
            group: owned("group"),
            readable: true,
            writable: true,
            executable: false,
        }
    }

    /// Finds the entry a request names (see `locate`).
    fn locate_entry(&self, file_id: &String, path: &String) -> (r: Result<usize, FileServiceError>)
        requires
            self.wf(),
        ensures
            match (r, locate(self@.files, file_id@, path@)) {
                (Ok(i), Ok(j)) => i == j && 0 <= j < self@.files.len(),
                (Err(e), Err(v)) => e@ == v,
                _ => false,
            },
    {
        let ghost s = self@.files;
        if !file_id.as_str().is_empty() {
            match self.files.index_of_id(file_id.as_str()) {
                Some(i) => {
                    assert(has_id(s, file_id@));
                    let ghost p = position_of_id(s, file_id@);
                    assert(p == i as int) by {
                        if p != i as int {
                            assert(s[p].file_id == s[i as int].file_id);
                        }
                    }
                    Ok(i)
                },
                None => Err(FileServiceError { code: ErrorCode::NotFound, message: owned("File not found") }),
            }
        } else if !path.as_str().is_empty() {
            match self.files.first_index_of_path(path.as_str()) {
                Some(i) => {
                    assert(is_first_with_path(s, path@, i as int));
                    assert(has_path(s, path@));
                    let ghost p = first_with_path(s, path@);
                    assert(p == i as int) by {
                        if p < i as int {
                            assert(s[p].path != path@);
                        } else if p > i as int {
                            assert(s[i as int].path != path@);
                        }
                    }
                    Ok(i)
                },
                None => Err(FileServiceError { code: ErrorCode::NotFound, message: owned("File not found") }),
            }
        } else {
            Err(
                FileServiceError {
                    code: ErrorCode::InvalidArgument,
                    message: owned("Either file_id or path must be provided"),
                },
            )
        }
    }

    /// The metadata of the entry a request names, without chunk ids unless
    /// they were asked for.
    pub fn get_file_info(&self, req: &GetFileInfoRequest) -> (r: Result<FileInfo, FileServiceError>)
        requires
            self.wf(),
        ensures
            match (r, locate(self@.files, req.file_id@, req.path@)) {
                (Ok(f), Ok(i)) => f@ == reported_info(self@.files[i], req.include_chunks),
                (Err(e), Err(v)) => e@ == v,
                _ => false,
            },
    {
        let i = self.locate_entry(&req.file_id, &req.path)?;
        let mut info = self.files.entry(i).duplicate();
        if !req.include_chunks {
            info.chunk_ids = Vec::new();
            info.chunk_count = 0;
            assert(crate::model::strings_view(info.chunk_ids@) =~= Seq::<Seq<char>>::empty());
        }
        Ok(info)
    }

    /// Lists the entries under a directory (see `listed`), in catalogue order,
    /// with their count and total size.
    pub fn list_files(&self, req: ListFilesRequest) -> (r: ListFilesResponse)
        requires
            self.wf(),
            total_size(self@.files.filter(listed(req.path@, req.recursive, req.include_hidden)))
                <= i64::MAX,
        ensures
            records(r.files@) == self@.files.filter(listed(req.path@, req.recursive, req.include_hidden)),
            r.current_path@ == req.path@,
            r.total_count == self@.files.filter(listed(req.path@, req.recursive, req.include_hidden)).len() as i32,
            r.total_size == total_size(self@.files.filter(listed(req.path@, req.recursive, req.include_hidden))),
    {
        let ghost s = self@.files;
        let ghost pred = listed(req.path@, req.recursive, req.include_hidden);
        let n = self.files.len();
        let mut out: Vec<FileInfo> = Vec::new();
        let mut size: i64 = 0;
        let mut i: usize = 0;
        while i < n
            invariant
                n == s.len(),
                s == self@.files,
                catalog_wf(s),
                total_size(s.filter(pred)) <= i64::MAX,
                pred == listed(req.path@, req.recursive, req.include_hidden),
                i <= n,
                records(out@) == s.take(i as int).filter(pred),
                size == total_size(s.take(i as int).filter(pred)),
            decreases n - i,
        {
            let ghost t = s.take(i as int);
            assert(s.take(i + 1) =~= t.push(s[i as int]));
            proof {
                t.lemma_filter_push(s[i as int], pred);
                lemma_filter_prefix(s, pred, i + 1);
            }
            let e = self.files.entry(i);
            let shown = is_listed(e, &req.path, req.recursive, req.include_hidden);
            if shown {
                let ghost before = out@;
                let d = e.duplicate();
                assert(t.filter(pred).push(s[i as int]).drop_last() =~= t.filter(pred));
                size = size + d.size;
                out.push(d);
                assert(records(out@) =~= records(before).push(s[i as int]));
            }
            i = i + 1;
        }
        assert(s.take(n as int) =~= s);
        let count = out.len() as i32;
        ListFilesResponse { files: out, current_path: req.path, total_count: count, total_size: size }
    }

    /// Whether the sizes of the entries a listing shows add up to at most
    /// `i64::MAX` (what `list_files` needs).
    pub fn listing_fits(&self, req: &ListFilesRequest) -> (b: bool)
        requires
            self.wf(),
        ensures
            b == (total_size(self@.files.filter(listed(req.path@, req.recursive, req.include_hidden)))
                <= i64::MAX),
    {
        let ghost s = self@.files;
        let ghost pred = listed(req.path@, req.recursive, req.include_hidden);
        let n = self.files.len();
        let mut size: i64 = 0;
        let mut i: usize = 0;
        while i < n
            invariant
                n == s.len(),
                s == self@.files,
                catalog_wf(s),
                pred == listed(req.path@, req.recursive, req.include_hidden),
                i <= n,
                size == total_size(s.take(i as int).filter(pred)),
            decreases n - i,
        {
            let ghost t = s.take(i as int);
            assert(s.take(i + 1) =~= t.push(s[i as int]));
            proof {
                t.lemma_filter_push(s[i as int], pred);
                lemma_filter_prefix(s, pred, i + 1);
            }
            let e = self.files.entry(i);
            if is_listed(e, &req.path, req.recursive, req.include_hidden) {
                assert(t.filter(pred).push(s[i as int]).drop_last() =~= t.filter(pred));
                match size.checked_add(e.size) {
                    Some(v) => size = v,
                    None => return false,
                }
            }
            i = i + 1;
        }
        assert(s.take(n as int) =~= s);
        true
    }

    /// Counters over the transfer sessions (the zero-copy ratio is
    /// `shared_memory_sessions / total_sessions`).
    pub fn get_transfer_stats(&self) -> (st: TransferStats)
        requires
            self.wf(),
            bytes_moved(self@.sessions) <= u64::MAX,
        ensures
            st.total_sessions == self@.sessions.len(),
            st.active_uploads == self@.sessions.filter(is_upload_mode()).len(),
            st.active_downloads == 0,
            st.bytes_transferred == bytes_moved(self@.sessions),
            st.shared_memory_sessions == self@.sessions.filter(is_shared_memory()).len(),
    {
        self.active_sessions.stats()
    }

    /// Hands out the next data-portal port, cycling through 9090..=9200.
    pub fn allocate_portal_port(&mut self) -> (port: u16)
        requires
            old(self).wf(),
        ensures
            final(self).wf(),
            port == old(self)@.next_port,
            final(self)@ == (ServiceView { next_port: port_after(port), ..old(self)@ }),
    {
        self.portal_port_allocator.allocate()
    }

    /// Generates the next numbered file id ("file_" and the counter, padded to
    /// ten digits).
    pub fn generate_file_id(&mut self) -> (id: String)
        requires
            old(self).wf(),
            old(self)@.file_counter < u64::MAX,
        ensures
            final(self).wf(),
            final(self)@ == (ServiceView { file_counter: (old(self)@.file_counter + 1) as u64, ..old(self)@ }),
            id@ == numbered_file_id(final(self)@.file_counter as nat),
    {
        self.file_counter = self.file_counter + 1;
        let digits = u64_to_decimal(self.file_counter);
        let len = digits.as_str().unicode_len();
        let mut id = owned("file_");
        let mut k: usize = len;
        let ghost pad: nat = if len < 10 { (10 - len) as nat } else { 0 };
        while k < 10
            invariant
                len <= k <= 10 || (k == len && len > 10),
                len == digits@.len(),
                pad == (if len < 10 { (10 - len) as nat } else { 0nat }),
                id@ == "file_"@ + Seq::new((k - len) as nat, |i: int| '0'),
            decreases 10 - k,
        {
            id.append("0");
            proof {
                reveal_strlit("0");
            }
            assert(id@ =~= "file_"@ + Seq::new((k + 1 - len) as nat, |i: int| '0'));
            k = k + 1;
        }
        assert(Seq::new((k - len) as nat, |i: int| '0') =~= Seq::new(pad, |i: int| '0'));
        id.append(digits.as_str());
        id
    }

    /// The first step of an upload, for a given session id: gathers the
    /// received messages (the last metadata, the chunks in order), picks the
    /// transport for the (unknown) client and plans the data-portal transfer.
    /// A broken stream is answered with an internal error; an upload without
    /// metadata with an unsuccessful answer.
    pub fn begin_upload_with(
        &self,
        received: &Vec<UploadFileRequest>,
        stream_failed: bool,
        session_id: String,
    ) -> (r: Result<UploadStart, FileServiceError>)
        requires
            uploaded_data(upload_items(received@)).len() <= i64::MAX,
        ensures
            upload_started(upload_items(received@), stream_failed, session_id@, r),
    {
        if stream_failed {
            return Err(FileServiceError { code: ErrorCode::Internal, message: owned("Upload stream error") });
        }
        let ghost items = upload_items(received@);
        let mut metadata: Option<UploadFileMetadata> = None;
        let mut file_data: Vec<u8> = Vec::new();
        let mut bytes_uploaded: i64 = 0;
        let n = received.len();
        let mut i: usize = 0;
        proof {
            lemma_uploaded_prefix(items, 0);
        }
        while i < n
            invariant
                n == received@.len(),
                items == upload_items(received@),
                uploaded_data(items).len() <= i64::MAX,
                i <= n,
                file_data@ == uploaded_data(items.take(i as int)),
                bytes_uploaded == file_data@.len(),
                match metadata {
                    Some(m) => last_metadata(items.take(i as int)) == Some(m@),
                    None => last_metadata(items.take(i as int)) is None,
                },
            decreases n - i,
        {
            let ghost t = items.take(i as int);
            let ghost t1 = items.take(i + 1);
            assert(t1.drop_last() =~= t);
            assert(t1.last() == received@[i as int]@);
            proof {
                lemma_uploaded_prefix(items, i + 1);
            }
            match &received[i].data {
                Some(UploadData::Metadata(m)) => {
                    metadata = Some(m.duplicate());
                },
                Some(UploadData::Chunk(c)) => {
                    let mut copy = slice_to_vec(c.as_slice());
                    bytes_uploaded = bytes_uploaded + c.len() as i64;
                    file_data.append(&mut copy);
                },
                None => {},
            }
            i = i + 1;
        }
        assert(items.take(n as int) =~= items);
        match metadata {
            None => Ok(
                UploadStart::NoMetadata(
                    UploadFileResponse {
                        success: false,
                        message: owned("No metadata received"),
                        file_info: None,
                        bytes_uploaded: 0,
                    },
                ),
            ),
            Some(meta) => {
                let mode = select_transport_mode(None);
                let plan = plan_data_portal(session_id.as_str(), mode, bytes_uploaded as u64);
                Ok(
                    UploadStart::Ready(
                        PendingUpload {
                            metadata: meta,
                            data: file_data,
                            bytes_uploaded,
                            session_id,
                            mode,
                            plan,
                        },
                    ),
                )
            },
        }
    }

    /// The first step of an upload (see `begin_upload_with`) with a freshly
    /// generated random session id.
    pub fn begin_upload(&self, received: &Vec<UploadFileRequest>, stream_failed: bool) -> (r:
        Result<UploadStart, FileServiceError>)
        requires
            uploaded_data(upload_items(received@)).len() <= i64::MAX,
        ensures
            exists|token: Seq<char>|
                is_session_token(token) && upload_started(
                    upload_items(received@),
                    stream_failed,
                    token,
                    r,
                ),
    {
        let token = random_token();
        let ghost t = token@;
        let r = self.begin_upload_with(received, stream_failed, token);
        assert(is_session_token(t));
        r
    }

    /// Completes an upload, for a given time, start instant and parent path:
    /// records the transfer session and stores the new catalogue entry (see
    /// `upload_record`), marked synced when the data was stored and in error
    /// otherwise.
    pub fn finish_upload_at(
        &mut self,
        pending: PendingUpload,
        portal_address: Option<String>,
        stored: bool,
        now: i64,
        started: std::time::Instant,
        parent: Option<String>,
    ) -> (resp: UploadFileResponse)
        requires
            old(self).wf(),
            pending.bytes_uploaded >= 0,
        ensures
            final(self).wf(),
            upload_finished(
                old(self)@,
                final(self)@,
                pending,
                opt_text(portal_address),
                stored,
                now,
                started,
                opt_text(parent),
                resp,
            ),
    {
        let ghost p0 = pending;
        let ghost portal = opt_text(portal_address);
        let PendingUpload { metadata, data: _, bytes_uploaded, session_id, mode, plan: _ } = pending;
        let session = TransferSession {
            session_id: session_id.clone(),
            mode,
            file_size: bytes_uploaded as u64,
            transferred_bytes: bytes_uploaded as u64,
            start_time: started,
            data_portal_address: duplicate_text(&portal_address),
        };
        self.active_sessions.insert(session);
        let file_id = join2("file_", session_id.as_str());
        let chunk_id = join2("chunk_", file_id.as_str());
        let mut chunk_ids: Vec<String> = Vec::new();
        chunk_ids.push(chunk_id);
        let parent_path = match parent {
            Some(p) => p,
            None => owned("/"),
        };
        let info = FileInfo {
            file_id,
            name: metadata.name,
            path: metadata.path,
            parent_path,
            size: bytes_uploaded,
            created_at: now,
            modified_at: now,
            accessed_at: now,
            file_type: FileType::Regular,
            mime_type: metadata.mime_type,
            checksum: metadata.checksum,
            permissions: Some(Self::create_file_permissions()),
            is_directory: false,
            is_symlink: false,
            chunk_count: 1,
            chunk_ids,
            replication_factor: 3,
            is_compressed: metadata.compress,
            is_encrypted: metadata.encrypt,
            sync_status: if stored {
                SyncStatus::Synced
            } else {
                SyncStatus::Error
            },
        };
        let ghost rec = upload_record(
            p0.metadata@,
            p0.session_id@,
            p0.bytes_uploaded,
            now,
            opt_text(parent),
            stored,
        );
        assert(crate::model::strings_view(info.chunk_ids@) =~= seq!["chunk_"@ + ("file_"@ + p0.session_id@)]);
        assert(info@ == rec);
        let stored_copy = info.duplicate();
        self.files.insert(stored_copy);
        let mut message = owned("File uploaded successfully via hybrid architecture");
        match &portal_address {
            Some(a) => {
                message.append(" - Data Portal: ");
                message.append(a.as_str());
            },
            None => {},
        }
        UploadFileResponse { success: true, message, file_info: Some(info), bytes_uploaded }
    }

    /// Completes an upload (see `finish_upload_at`) at the current time, with
    /// the parent directory that `std::path::Path::parent` gives for the
    /// uploaded path.
    pub fn finish_upload(&mut self, pending: PendingUpload, portal_address: Option<String>, stored: bool) -> (resp: UploadFileResponse)
        requires
            old(self).wf(),
            pending.bytes_uploaded >= 0,
        ensures
            final(self).wf(),
            exists|now: i64, started: std::time::Instant|
                upload_finished(
                    old(self)@,
                    final(self)@,
                    pending,
                    opt_text(portal_address),
                    stored,
                    now,
                    started,
                    path_parent(pending.metadata.path@),
                    resp,
                ),
    {
        let parent = parent_of(pending.metadata.path.as_str());
        let ghost pp = opt_text(parent);
        assert(pp == path_parent(pending.metadata.path@));
        let now = unix_time_now();
        let started = instant_now();
        self.finish_upload_at(pending, portal_address, stored, now, started, parent)
    }

    /// The first step of a download, for a given portal session id: finds the
    /// entry the request names and hands out a copy of its metadata with the
    /// session id. The messages themselves come from `download_messages` once
    /// the data has been read.
    pub fn download_file_with(&self, req: &DownloadFileRequest, session_id: String) -> (r: Result<
        DownloadTicket,
        FileServiceError,
    >)
        requires
            self.wf(),
        ensures
            match (r, locate(self@.files, req.file_id@, req.path@)) {
                (Ok(t), Ok(i)) => t.info@ == self@.files[i] && t.session_id@ == session_id@,
                (Err(e), Err(v)) => e@ == v,
                _ => false,
            },
    {
        let i = self.locate_entry(&req.file_id, &req.path)?;
        Ok(DownloadTicket { info: self.files.entry(i).duplicate(), session_id })
    }

    /// The first step of a download (see `download_file_with`) with a freshly
    /// generated random session id.
    pub fn download_file(&self, req: &DownloadFileRequest) -> (r: Result<DownloadTicket, FileServiceError>)
        requires
            self.wf(),
        ensures
            match (r, locate(self@.files, req.file_id@, req.path@)) {
                (Ok(t), Ok(i)) => t.info@ == self@.files[i] && is_session_token(t.session_id@),
                (Err(e), Err(v)) => e@ == v,
                _ => false,
            },
    {
        let i = self.locate_entry(&req.file_id, &req.path)?;
        let session_id = random_token();
        Ok(DownloadTicket { info: self.files.entry(i).duplicate(), session_id })
    }

    /// Deletes the entry a request names (see `delete_outcome`).
    pub fn delete_file(&mut self, req: &DeleteFileRequest) -> (r: Result<DeleteFileResponse, FileServiceError>)
        requires
            old(self).wf(),
            delete_count_fits(old(self)@.files, req.file_id@, req.path@, req.recursive, req.force),
        ensures
            final(self).wf(),
            match (r, delete_outcome(old(self)@.files, req.file_id@, req.path@, req.recursive, req.force)) {
                (Ok(resp), Ok((files, n))) => {
                    &&& final(self)@ == ServiceView { files, ..old(self)@ }
                    &&& resp.success
                    &&& resp.deleted_count == n
                    &&& resp.message@ == deleted_message(n)
                },
                (Err(e), Err(v)) => e@ == v && final(self)@ == old(self)@,
                _ => false,
            },
    {
        let ghost s = self@.files;
        let i = self.locate_entry(&req.file_id, &req.path)?;
        let is_dir = self.files.entry(i).is_directory;
        let count: i32;
        if is_dir && req.recursive {
            let dir = self.files.entry(i).path.clone();
            let removed = self.files.remove_under(dir.as_str());
            count = removed as i32;
        } else if !is_dir || req.force {
            self.files.remove_at(i);
            count = 1;
        } else {
            return Err(
                FileServiceError {
                    code: ErrorCode::FailedPrecondition,
                    message: owned("Cannot delete directory without recursive flag"),
                },
            );
        }
        let digits = u64_to_decimal(count as u64);
        let message = join3("Successfully deleted ", digits.as_str(), " file(s)");
        Ok(DeleteFileResponse { success: true, message, deleted_count: count })
    }

    /// Creates a directory entry, for a given id token, time, and the name and
    /// parent the path decomposes into (see `directory_created`).
    pub fn create_directory_with(
        &mut self,
        req: CreateDirectoryRequest,
        token: String,
        now: i64,
        name: Option<String>,
        parent: Option<String>,
    ) -> (r: Result<CreateDirectoryResponse, FileServiceError>)
        requires
            old(self).wf(),
        ensures
            final(self).wf(),
            directory_created(
                old(self)@,
                final(self)@,
                req.path@,
                permissions_view(req.permissions),
                token@,
                now,
                opt_text(name),
                opt_text(parent),
                r,
            ),
    {
        if self.files.has_directory_at(req.path.as_str()) {
            return Err(
                FileServiceError { code: ErrorCode::AlreadyExists, message: owned("Directory already exists") },
            );
        }
        let ghost rec = directory_record(
            req.path@,
            token@,
            now,
            opt_text(name),
            opt_text(parent),
            permissions_view(req.permissions),
        );
        let CreateDirectoryRequest { path, permissions } = req;
        let info = FileInfo {
            file_id: join2("dir_", token.as_str()),
            name: match name {
                Some(n) => n,
                None => String::new(),
            },
            path,
            parent_path: match parent {
                Some(p) => p,
                None => owned("/"),
            },
            size: 0,
            created_at: now,
            modified_at: now,
            accessed_at: now,
            file_type: FileType::Directory,
            mime_type: owned("inode/directory"),
            checksum: String::new(),
            permissions: match permissions {
                Some(p) => Some(p),
                None => Some(Self::create_file_permissions()),
            },
            is_directory: true,
            is_symlink: false,
            chunk_count: 0,
            chunk_ids: Vec::new(),
            replication_factor: 1,
            is_compressed: false,
            is_encrypted: false,
            sync_status: SyncStatus::Synced,
        };
        assert(crate::model::strings_view(info.chunk_ids@) =~= Seq::<Seq<char>>::empty());
        assert(info@ == rec);
        self.files.insert(info.duplicate());
        Ok(
            CreateDirectoryResponse {
                success: true,
                message: owned("Directory created successfully"),
                directory_info: Some(info),
            },
        )
    }

    /// Creates a directory entry (see `create_directory_with`) with a freshly
    /// generated id token, at the current time, named and placed as
    /// `std::path::Path::file_name` and `Path::parent` decompose its path.
    pub fn create_directory(&mut self, req: CreateDirectoryRequest) -> (r: Result<
        CreateDirectoryResponse,
        FileServiceError,
    >)
        requires
            old(self).wf(),
        ensures
            final(self).wf(),
            exists|token: Seq<char>, now: i64|
                is_session_token(token) && directory_created(
                    old(self)@,
                    final(self)@,
                    req.path@,
                    permissions_view(req.permissions),
                    token,
                    now,
                    path_file_name(req.path@),
                    path_parent(req.path@),
                    r,
                ),
    {
        if self.files.has_directory_at(req.path.as_str()) {
            let r = Err(
                FileServiceError { code: ErrorCode::AlreadyExists, message: owned("Directory already exists") },
            );
            let ghost z = Seq::new(32, |i: int| '0');
            assert(is_session_token(z));
            assert(directory_created(old(self)@, self@, req.path@, permissions_view(req.permissions),
                z, 0, path_file_name(req.path@), path_parent(req.path@), r));
            return r;
        }
        let token = random_token();
        let name = file_name_of(req.path.as_str());
        let parent = parent_of(req.path.as_str());
        let now = unix_time_now();
        let ghost t = token@;
        let r = self.create_directory_with(req, token, now, name, parent);
        assert(is_session_token(t));
        r
    }

    /// The synchronisation state under a path (see `in_scope`): how many
    /// covered entries are pending, syncing, in error and in conflict, the
    /// bytes still to upload, the overall state, and the entries that need
    /// attention, in catalogue order.
    pub fn get_sync_status(&self, req: &GetSyncStatusRequest) -> (r: SyncStatusResponse)
        requires
            self.wf(),
            sync_counts_fit(self@.files, req.path@),
        ensures
            r.pending_uploads == self@.files.filter(scoped_with(req.path@, SyncStatus::Pending)).len(),
            r.pending_downloads == 0,
            r.syncing_files == self@.files.filter(scoped_with(req.path@, SyncStatus::Syncing)).len(),
            r.error_files == self@.files.filter(scoped_with(req.path@, SyncStatus::Error)).len(),
            r.conflict_files == self@.files.filter(scoped_with(req.path@, SyncStatus::Conflict)).len(),
            r.bytes_to_upload == total_size(self@.files.filter(scoped_with(req.path@, SyncStatus::Pending))),
            r.bytes_to_download == 0,
            records(r.pending_files@) == self@.files.filter(scoped_attention(req.path@)),
            r.overall_status == overall_status(
                r.error_files as int,
                r.conflict_files as int,
                r.syncing_files as int,
                r.pending_uploads as int,
            ),
    {
        let ghost s = self@.files;
        let ghost pend = scoped_with(req.path@, SyncStatus::Pending);
        let ghost sync = scoped_with(req.path@, SyncStatus::Syncing);
        let ghost err = scoped_with(req.path@, SyncStatus::Error);
        let ghost conf = scoped_with(req.path@, SyncStatus::Conflict);
        let ghost att = scoped_attention(req.path@);
        let all = req.path.as_str().is_empty();
        let n = self.files.len();
        let mut pending_uploads: i32 = 0;
        let mut syncing_files: i32 = 0;
        let mut error_files: i32 = 0;
        let mut conflict_files: i32 = 0;
        let mut bytes_to_upload: i64 = 0;
        let mut pending_files: Vec<FileInfo> = Vec::new();
        let mut i: usize = 0;
        while i < n
            invariant
                n == s.len(),
                s == self@.files,
                catalog_wf(s),
                sync_counts_fit(s, req.path@),
                all == (req.path@.len() == 0),
                pend == scoped_with(req.path@, SyncStatus::Pending),
                sync == scoped_with(req.path@, SyncStatus::Syncing),
                err == scoped_with(req.path@, SyncStatus::Error),
                conf == scoped_with(req.path@, SyncStatus::Conflict),
                att == scoped_attention(req.path@),
                i <= n,
                pending_uploads == s.take(i as int).filter(pend).len(),
                syncing_files == s.take(i as int).filter(sync).len(),
                error_files == s.take(i as int).filter(err).len(),
                conflict_files == s.take(i as int).filter(conf).len(),
                bytes_to_upload == total_size(s.take(i as int).filter(pend)),
                records(pending_files@) == s.take(i as int).filter(att),
            decreases n - i,
        {
            let ghost t = s.take(i as int);
            let ghost x = s[i as int];
            assert(s.take(i + 1) =~= t.push(x));
            proof {
                t.lemma_filter_push(x, pend);
                t.lemma_filter_push(x, sync);
                t.lemma_filter_push(x, err);
                t.lemma_filter_push(x, conf);
                t.lemma_filter_push(x, att);
                lemma_filter_prefix(s, pend, i + 1);
                lemma_filter_prefix(s, sync, i + 1);
                lemma_filter_prefix(s, err, i + 1);
                lemma_filter_prefix(s, conf, i + 1);
                assert(t.filter(pend).push(x).drop_last() =~= t.filter(pend));
            }
            let e = self.files.entry(i);
            let covered = all || starts_with(e.path.as_str(), req.path.as_str());
            assert(covered == in_scope(req.path@, x));
            if covered {
                match e.sync_status {
                    SyncStatus::Pending => {
                        pending_uploads = pending_uploads + 1;
                        bytes_to_upload = bytes_to_upload + e.size;
                        let ghost before = pending_files@;
                        pending_files.push(e.duplicate());
                        assert(records(pending_files@) =~= records(before).push(x));
                    },
                    SyncStatus::Syncing => {
                        syncing_files = syncing_files + 1;
                    },
                    SyncStatus::Error => {
                        error_files = error_files + 1;
                        let ghost before = pending_files@;
                        pending_files.push(e.duplicate());
                        assert(records(pending_files@) =~= records(before).push(x));
                    },
                    SyncStatus::Conflict => {
                        conflict_files = conflict_files + 1;
                        let ghost before = pending_files@;
                        pending_files.push(e.duplicate());
                        assert(records(pending_files@) =~= records(before).push(x));
                    },
                    _ => {},
                }
            }
            i = i + 1;
        }
        assert(s.take(n as int) =~= s);
        let overall_status = if error_files > 0 || conflict_files > 0 {
            SyncStatus::Error
        } else if syncing_files > 0 || pending_uploads > 0 {
            SyncStatus::Syncing
        } else {
            SyncStatus::Synced
        };
        SyncStatusResponse {
            overall_status,
            pending_uploads,
            pending_downloads: 0,
            syncing_files,
            error_files,
            conflict_files,
            bytes_to_upload,
            bytes_to_download: 0,
            pending_files,
        }
    }

    /// Whether the counters of a sync-status query fit their types (what
    /// `get_sync_status` needs).
    pub fn sync_status_fits(&self, req: &GetSyncStatusRequest) -> (b: bool)
        requires
            self.wf(),
        ensures
            b == sync_counts_fit(self@.files, req.path@),
    {
        let ghost s = self@.files;
        let ghost pend = scoped_with(req.path@, SyncStatus::Pending);
        let ghost sync = scoped_with(req.path@, SyncStatus::Syncing);
        let ghost err = scoped_with(req.path@, SyncStatus::Error);
        let ghost conf = scoped_with(req.path@, SyncStatus::Conflict);
        let all = req.path.as_str().is_empty();
        let n = self.files.len();
        let mut pending: usize = 0;
        let mut syncing: usize = 0;
        let mut errors: usize = 0;
        let mut conflicts: usize = 0;
        let mut bytes: i64 = 0;
        let mut i: usize = 0;
        while i < n
            invariant
                n == s.len(),
                s == self@.files,
                catalog_wf(s),
                all == (req.path@.len() == 0),
                pend == scoped_with(req.path@, SyncStatus::Pending),
                sync == scoped_with(req.path@, SyncStatus::Syncing),
                err == scoped_with(req.path@, SyncStatus::Error),
                conf == scoped_with(req.path@, SyncStatus::Conflict),
                i <= n,
                pending == s.take(i as int).filter(pend).len(),
                syncing == s.take(i as int).filter(sync).len(),
                errors == s.take(i as int).filter(err).len(),
                conflicts == s.take(i as int).filter(conf).len(),
                pending <= i && syncing <= i && errors <= i && conflicts <= i,
                bytes == total_size(s.take(i as int).filter(pend)),
            decreases n - i,
        {
            let ghost t = s.take(i as int);
            let ghost x = s[i as int];
            assert(s.take(i + 1) =~= t.push(x));
            proof {
                t.lemma_filter_push(x, pend);
                t.lemma_filter_push(x, sync);
                t.lemma_filter_push(x, err);
                t.lemma_filter_push(x, conf);
                lemma_filter_prefix(s, pend, i + 1);
                assert(t.filter(pend).push(x).drop_last() =~= t.filter(pend));
            }
            let e = self.files.entry(i);
            let covered = all || starts_with(e.path.as_str(), req.path.as_str());
            assert(covered == in_scope(req.path@, x));
            if covered {
                match e.sync_status {
                    SyncStatus::Pending => {
                        pending = pending + 1;
                        match bytes.checked_add(e.size) {
                            Some(v) => bytes = v,
                            None => return false,
                        }
                    },
                    SyncStatus::Syncing => syncing = syncing + 1,
                    SyncStatus::Error => errors = errors + 1,
                    SyncStatus::Conflict => conflicts = conflicts + 1,
                    _ => {},
                }
            }
            i = i + 1;
        }
        assert(s.take(n as int) =~= s);
        pending <= i32::MAX as usize && syncing <= i32::MAX as usize && errors <= i32::MAX as usize
            && conflicts <= i32::MAX as usize
    }

    /// Whether the count a deletion would report fits an `i32` (what
    /// `delete_file` needs).
    pub fn delete_fits(&self, req: &DeleteFileRequest) -> (b: bool)
        requires
            self.wf(),
        ensures
            b == delete_count_fits(self@.files, req.file_id@, req.path@, req.recursive, req.force),
    {
        match self.locate_entry(&req.file_id, &req.path) {
            Err(_) => true,
            Ok(i) => {
                let e = self.files.entry(i);
                if e.is_directory && req.recursive {
                    self.files.count_under(e.path.as_str()) <= i32::MAX as usize
                } else {
                    true
                }
            },
        }
    }

    /// Whether the bytes moved by all sessions add up to at most `u64::MAX`
    /// (what `get_transfer_stats` needs).
    pub fn transfers_fit(&self) -> (b: bool)
        requires
            self.wf(),
        ensures
            b == (bytes_moved(self@.sessions) <= u64::MAX),
    {
        self.active_sessions.bytes_fit()
    }
}

/// Whether the chunks of an upload add up to at most `i64::MAX` bytes (what
/// `begin_upload` needs).
pub fn upload_fits(received: &Vec<UploadFileRequest>) -> (b: bool)
    ensures
        b == (uploaded_data(upload_items(received@)).len() <= i64::MAX),
{
    let ghost items = upload_items(received@);
    let n = received.len();
    let mut acc: u64 = 0;
    let mut i: usize = 0;
    while i < n
        invariant
            n == received@.len(),
            items == upload_items(received@),
            i <= n,
            acc == uploaded_data(items.take(i as int)).len(),
        decreases n - i,
    {
        let ghost t1 = items.take(i + 1);
        assert(t1.drop_last() =~= items.take(i as int));
        assert(t1.last() == received@[i as int]@);
        proof {
            lemma_uploaded_prefix(items, i + 1);
        }
        match &received[i].data {
            Some(UploadData::Chunk(c)) => {
                match acc.checked_add(c.len() as u64) {
                    Some(v) => acc = v,
                    None => {
                        return false;
                    },
                }
            },
            _ => {},
        }
        i = i + 1;
    }
    assert(items.take(n as int) =~= items);
    acc <= i64::MAX as u64
}

} // verus!
