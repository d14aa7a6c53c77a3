use librorum_core::download::{
    chunk_size, download_messages, filler_bytes, DownloadData, DownloadFileRequest,
    DownloadFileResponse,
};
use librorum_core::model::{
    CreateDirectoryRequest, DeleteFileRequest, ErrorCode, FileInfo, FilePermissions, FileType,
    GetFileInfoRequest, GetSyncStatusRequest, ListFilesRequest, SyncStatus, UploadData,
    UploadFileMetadata, UploadFileRequest,
};
use librorum_core::service::{HybridFileServiceV2, PendingUpload, UploadStart};
use librorum_core::text::u64_to_decimal;
use librorum_core::transport::{PortalPlan, TransferSession, TransportMode};

fn meta(name: &str, path: &str) -> UploadFileRequest {
    UploadFileRequest {
        data: Some(UploadData::Metadata(UploadFileMetadata {
            name: name.to_string(),
            path: path.to_string(),
            size: 0,
            mime_type: "text/plain".to_string(),
            checksum: "abc".to_string(),
            compress: true,
            encrypt: false,
        })),
    }
}

fn chunk(bytes: &[u8]) -> UploadFileRequest {
    UploadFileRequest { data: Some(UploadData::Chunk(bytes.to_vec())) }
}

fn ready(start: UploadStart) -> PendingUpload {
    match start {
        UploadStart::Ready(p) => p,
        UploadStart::NoMetadata(_) => panic!("expected metadata"),
    }
}

/// Uploads a file and returns its id.
fn upload(svc: &mut HybridFileServiceV2, name: &str, path: &str, data: &[u8], stored: bool) -> String {
    let received = vec![meta(name, path), chunk(data)];
    let pending = ready(svc.begin_upload(&received, false).unwrap());
    let resp = svc.finish_upload(pending, None, stored);
    resp.file_info.unwrap().file_id
}

fn info_req(id: &str) -> GetFileInfoRequest {
    GetFileInfoRequest { file_id: id.to_string(), path: String::new(), include_chunks: true }
}

fn is_token(s: &str) -> bool {
    s.len() == 32 && s.chars().all(|c| c.is_ascii_digit() || ('a'..='f').contains(&c))
}

#[test]
fn test_hybrid_file_service_creation() {
    let file_service = HybridFileServiceV2::new("/tmp/librorum_simple_test".to_string());
    let stats = file_service.get_transfer_stats();
    assert_eq!(stats.total_sessions, 0);
    assert_eq!(stats.active_uploads, 0);
    assert_eq!(stats.active_downloads, 0);
}

#[test]
fn test_transfer_modes() {
    let session = TransferSession {
        session_id: "test_session_001".to_string(),
        mode: TransportMode::SharedMemory,
        file_size: 1024 * 1024,
        transferred_bytes: 0,
        start_time: std::time::Instant::now(),
        data_portal_address: Some("/shared_memory/test".to_string()),
    };
    assert_eq!(session.session_id, "test_session_001");
    assert!(matches!(session.mode, TransportMode::SharedMemory));
    assert_eq!(session.file_size, 1024 * 1024);
}

#[test]
fn upload_begins_with_gathered_chunks_and_a_shared_memory_plan() {
    let svc = HybridFileServiceV2::new_default();
    let received = vec![meta("a.txt", "/docs/a.txt"), chunk(&[1, 2, 3]), chunk(&[4, 5])];
    let p = ready(svc.begin_upload(&received, false).unwrap());
    assert_eq!(p.data, vec![1, 2, 3, 4, 5]);
    assert_eq!(p.bytes_uploaded, 5);
    assert!(is_token(&p.session_id));
    assert_eq!(p.mode, TransportMode::SharedMemory);
    match &p.plan {
        PortalPlan::SharedMemory { shm_path, shm_size } => {
            assert_eq!(shm_path, &format!("/librorum_transfer_{}", p.session_id));
            assert_eq!(*shm_size, 1048576);
        }
        PortalPlan::Network { .. } => panic!("expected shared memory"),
    }
}

#[test]
fn upload_keeps_the_last_metadata() {
    let svc = HybridFileServiceV2::new_default();
    let received = vec![meta("first", "/x/first"), chunk(&[9]), meta("second", "/y/second")];
    let p = ready(svc.begin_upload_with(&received, false, "s1".to_string()).unwrap());
    assert_eq!(p.metadata.name, "second");
    assert_eq!(p.data, vec![9]);
    assert_eq!(p.session_id, "s1");
}

#[test]
fn upload_without_metadata_is_answered_unsuccessfully() {
    let svc = HybridFileServiceV2::new_default();
    let received = vec![chunk(&[1, 2]), UploadFileRequest { data: None }];
    match svc.begin_upload(&received, false).unwrap() {
        UploadStart::NoMetadata(resp) => {
            assert!(!resp.success);
            assert_eq!(resp.message, "No metadata received");
            assert!(resp.file_info.is_none());
            assert_eq!(resp.bytes_uploaded, 0);
        }
        UploadStart::Ready(_) => panic!("expected no metadata"),
    }
}

#[test]
fn broken_upload_stream_is_an_internal_error() {
    let svc = HybridFileServiceV2::new_default();
    let received = vec![meta("a", "/a")];
    let err = svc.begin_upload(&received, true).unwrap_err();
    assert_eq!(err.code, ErrorCode::Internal);
    assert_eq!(err.message, "Upload stream error");
}

#[test]
fn finished_upload_is_stored_and_read_back() {
    let mut svc = HybridFileServiceV2::new_default();
    let received = vec![meta("a.txt", "/docs/a.txt"), chunk(b"hello")];
    let pending = ready(svc.begin_upload(&received, false).unwrap());
    let sid = pending.session_id.clone();
    let resp = svc.finish_upload(pending, Some("/librorum_transfer_x".to_string()), true);
    assert!(resp.success);
    assert_eq!(
        resp.message,
        "File uploaded successfully via hybrid architecture - Data Portal: /librorum_transfer_x"
    );
    assert_eq!(resp.bytes_uploaded, 5);
    let info = resp.file_info.unwrap();
    assert_eq!(info.file_id, format!("file_{}", sid));
    assert_eq!(info.name, "a.txt");
    assert_eq!(info.path, "/docs/a.txt");
    assert_eq!(info.parent_path, "/docs");
    assert_eq!(info.size, 5);
    assert_eq!(info.file_type, FileType::Regular);
    assert_eq!(info.mime_type, "text/plain");
    assert_eq!(info.checksum, "abc");
    assert!(info.is_compressed && !info.is_encrypted);
    assert_eq!(info.chunk_count, 1);
    assert_eq!(info.chunk_ids, vec![format!("chunk_file_{}", sid)]);
    assert_eq!(info.replication_factor, 3);
    assert_eq!(info.sync_status, SyncStatus::Synced);
    assert_eq!(info.created_at, info.modified_at);
    assert!(info.created_at > 1_600_000_000);
    let perms = info.permissions.as_ref().unwrap();
    assert_eq!(perms.mode, 0o644);
    assert_eq!(perms.owner, "user");
    assert_eq!(perms.group, "group");

    let back = svc.get_file_info(&info_req(&info.file_id)).unwrap();
    assert_eq!(back.file_id, info.file_id);
    assert_eq!(back.chunk_ids, info.chunk_ids);

    let stats = svc.get_transfer_stats();
    assert_eq!(stats.total_sessions, 1);
    assert_eq!(stats.active_uploads, 1);
    assert_eq!(stats.shared_memory_sessions, 1);
    assert_eq!(stats.bytes_transferred, 5);
}

#[test]
fn unstored_upload_is_marked_in_error_and_reported_by_sync_status() {
    let mut svc = HybridFileServiceV2::new_default();
    upload(&mut svc, "ok.bin", "/d/ok.bin", &[1], true);
    upload(&mut svc, "bad.bin", "/d/bad.bin", &[1, 2], false);
    let st = svc.get_sync_status(&GetSyncStatusRequest { path: String::new() });
    assert_eq!(st.error_files, 1);
    assert_eq!(st.pending_uploads, 0);
    assert_eq!(st.syncing_files, 0);
    assert_eq!(st.conflict_files, 0);
    assert_eq!(st.overall_status, SyncStatus::Error);
    assert_eq!(st.pending_files.len(), 1);
    assert_eq!(st.pending_files[0].name, "bad.bin");
    let scoped = svc.get_sync_status(&GetSyncStatusRequest { path: "/d/ok".to_string() });
    assert_eq!(scoped.error_files, 0);
    assert_eq!(scoped.overall_status, SyncStatus::Synced);
}

#[test]
fn file_info_without_chunks_drops_them() {
    let mut svc = HybridFileServiceV2::new_default();
    let id = upload(&mut svc, "a", "/a", &[1], true);
    let info = svc
        .get_file_info(&GetFileInfoRequest { file_id: id, path: String::new(), include_chunks: false })
        .unwrap();
    assert!(info.chunk_ids.is_empty());
    assert_eq!(info.chunk_count, 0);
}

#[test]
fn lookups_by_path_and_their_errors() {
    let mut svc = HybridFileServiceV2::new_default();
    let id = upload(&mut svc, "a", "/p/a", &[1], true);
    let by_path = svc
        .get_file_info(&GetFileInfoRequest {
            file_id: String::new(),
            path: "/p/a".to_string(),
            include_chunks: true,
        })
        .unwrap();
    assert_eq!(by_path.file_id, id);
    let none = svc
        .get_file_info(&GetFileInfoRequest {
            file_id: String::new(),
            path: String::new(),
            include_chunks: true,
        })
        .unwrap_err();
    assert_eq!(none.code, ErrorCode::InvalidArgument);
    assert_eq!(none.message, "Either file_id or path must be provided");
    let missing = svc.get_file_info(&info_req("file_nope")).unwrap_err();
    assert_eq!(missing.code, ErrorCode::NotFound);
    assert_eq!(missing.message, "File not found");
}

#[test]
fn listing_filters_by_parent_and_hidden_names() {
    let mut svc = HybridFileServiceV2::new_default();
    upload(&mut svc, "a", "/d/a", &[1, 2], true);
    upload(&mut svc, ".hidden", "/d/.hidden", &[1], true);
    upload(&mut svc, "b", "/d/sub/b", &[1, 2, 3], true);
    upload(&mut svc, "c", "/e/c", &[1], true);
    let plain = svc.list_files(ListFilesRequest {
        path: "/d".to_string(),
        recursive: false,
        include_hidden: false,
    });
    assert_eq!(plain.current_path, "/d");
    assert_eq!(plain.total_count, 1);
    assert_eq!(plain.total_size, 2);
    assert_eq!(plain.files[0].name, "a");
    let hidden = svc.list_files(ListFilesRequest {
        path: "/d".to_string(),
        recursive: false,
        include_hidden: true,
    });
    assert_eq!(hidden.total_count, 2);
    assert_eq!(hidden.total_size, 3);
    let deep = svc.list_files(ListFilesRequest {
        path: "/d".to_string(),
        recursive: true,
        include_hidden: true,
    });
    assert_eq!(deep.total_count, 3);
    assert_eq!(deep.total_size, 6);
    let names: Vec<&str> = deep.files.iter().map(|f| f.name.as_str()).collect();
    assert_eq!(names, vec!["a", ".hidden", "b"]);
}

#[test]
fn deleting_a_file_removes_it() {
    let mut svc = HybridFileServiceV2::new_default();
    let id = upload(&mut svc, "a", "/a", &[1], true);
    let resp = svc
        .delete_file(&DeleteFileRequest {
            file_id: id.clone(),
            path: String::new(),
            recursive: false,
            force: false,
        })
        .unwrap();
    assert!(resp.success);
    assert_eq!(resp.deleted_count, 1);
    assert_eq!(resp.message, "Successfully deleted 1 file(s)");
    assert_eq!(svc.get_file_info(&info_req(&id)).unwrap_err().code, ErrorCode::NotFound);
}

#[test]
fn deleting_a_directory_needs_recursive_or_force() {
    let mut svc = HybridFileServiceV2::new_default();
    svc.create_directory(CreateDirectoryRequest { path: "/dir".to_string(), permissions: None })
        .unwrap();
    upload(&mut svc, "x", "/dir/x", &[1], true);
    upload(&mut svc, "y", "/dir/y", &[1], true);
    upload(&mut svc, "z", "/dirt/z", &[1], true);
    upload(&mut svc, "w", "/other/w", &[1], true);
    let req = |recursive: bool, force: bool| DeleteFileRequest {
        file_id: String::new(),
        path: "/dir".to_string(),
        recursive,
        force,
    };
    let err = svc.delete_file(&req(false, false)).unwrap_err();
    assert_eq!(err.code, ErrorCode::FailedPrecondition);
    assert_eq!(err.message, "Cannot delete directory without recursive flag");
    let resp = svc.delete_file(&req(true, false)).unwrap();
    // "/dirt/z" starts with "/dir" as a string and goes too.
    assert_eq!(resp.deleted_count, 4);
    assert_eq!(resp.message, "Successfully deleted 4 file(s)");
    let left = svc.list_files(ListFilesRequest {
        path: String::new(),
        recursive: true,
        include_hidden: true,
    });
    assert_eq!(left.total_count, 1);
    assert_eq!(left.files[0].name, "w");
}

#[test]
fn forced_delete_takes_a_directory_alone() {
    let mut svc = HybridFileServiceV2::new_default();
    svc.create_directory(CreateDirectoryRequest { path: "/dir".to_string(), permissions: None })
        .unwrap();
    upload(&mut svc, "x", "/dir/x", &[1], true);
    let resp = svc
        .delete_file(&DeleteFileRequest {
            file_id: String::new(),
            path: "/dir".to_string(),
            recursive: false,
            force: true,
        })
        .unwrap();
    assert_eq!(resp.deleted_count, 1);
    let missing = svc
        .delete_file(&DeleteFileRequest {
            file_id: String::new(),
            path: "/dir".to_string(),
            recursive: false,
            force: true,
        })
        .unwrap_err();
    assert_eq!(missing.code, ErrorCode::NotFound);
}

#[test]
fn creating_a_directory_and_again() {
    let mut svc = HybridFileServiceV2::new_default();
    let resp = svc
        .create_directory(CreateDirectoryRequest { path: "/a/b".to_string(), permissions: None })
        .unwrap();
    assert!(resp.success);
    assert_eq!(resp.message, "Directory created successfully");
    let info = resp.directory_info.unwrap();
    assert!(info.file_id.starts_with("dir_"));
    assert!(is_token(&info.file_id[4..]));
    assert_eq!(info.name, "b");
    assert_eq!(info.parent_path, "/a");
    assert_eq!(info.size, 0);
    assert_eq!(info.file_type, FileType::Directory);
    assert_eq!(info.mime_type, "inode/directory");
    assert_eq!(info.checksum, "");
    assert!(info.is_directory);
    assert_eq!(info.chunk_count, 0);
    assert!(info.chunk_ids.is_empty());
    assert_eq!(info.replication_factor, 1);
    assert_eq!(info.sync_status, SyncStatus::Synced);
    assert_eq!(info.permissions.unwrap().mode, 0o644);
    let again = svc
        .create_directory(CreateDirectoryRequest { path: "/a/b".to_string(), permissions: None })
        .unwrap_err();
    assert_eq!(again.code, ErrorCode::AlreadyExists);
    assert_eq!(again.message, "Directory already exists");
}

#[test]
fn directory_keeps_given_permissions_and_root_parent() {
    let mut svc = HybridFileServiceV2::new_default();
    let perms = FilePermissions {
        mode: 0o700,
        owner: "me".to_string(),
        group: "us".to_string(),
        readable: true,
        writable: false,
        executable: true,
    };
    let info = svc
        .create_directory(CreateDirectoryRequest { path: "/".to_string(), permissions: Some(perms) })
        .unwrap()
        .directory_info
        .unwrap();
    assert_eq!(info.name, "");
    assert_eq!(info.parent_path, "/");
    assert_eq!(info.permissions.unwrap().owner, "me");
}

#[test]
fn create_directory_with_given_names() {
    let mut svc = HybridFileServiceV2::new_default();
    let info = svc
        .create_directory_with(
            CreateDirectoryRequest { path: "/q/r".to_string(), permissions: None },
            "t0".to_string(),
            42,
            None,
            None,
        )
        .unwrap()
        .directory_info
        .unwrap();
    assert_eq!(info.file_id, "dir_t0");
    assert_eq!(info.name, "");
    assert_eq!(info.parent_path, "/");
    assert_eq!(info.created_at, 42);
}

fn payloads(msgs: &[DownloadFileResponse]) -> Vec<(i64, Vec<u8>)> {
    msgs.iter()
        .filter_map(|m| match &m.data {
            Some(DownloadData::Chunk(c)) => Some((m.offset, c.clone())),
            _ => None,
        })
        .collect()
}

fn sample_info(size: i64) -> FileInfo {
    FileInfo {
        file_id: "f".to_string(),
        name: "n".to_string(),
        path: "/n".to_string(),
        parent_path: "/".to_string(),
        size,
        created_at: 0,
        modified_at: 0,
        accessed_at: 0,
        file_type: FileType::Regular,
        mime_type: String::new(),
        checksum: String::new(),
        permissions: None,
        is_directory: false,
        is_symlink: false,
        chunk_count: 1,
        chunk_ids: vec![],
        replication_factor: 3,
        is_compressed: false,
        is_encrypted: false,
        sync_status: SyncStatus::Synced,
    }
}

#[test]
fn small_download_is_the_info_then_one_chunk() {
    let info = sample_info(5);
    let msgs = download_messages(&info, Some(vec![1, 2, 3, 4, 5]), "sid", 0, 0);
    assert_eq!(msgs.len(), 2);
    assert!(matches!(msgs[0].data, Some(DownloadData::FileInfo(_))));
    assert_eq!(msgs[0].offset, 0);
    assert_eq!(msgs[0].total_size, 5);
    assert_eq!(payloads(&msgs), vec![(0, vec![1, 2, 3, 4, 5])]);
}

#[test]
fn ranged_download_gives_the_range() {
    let info = sample_info(5);
    let msgs = download_messages(&info, Some(vec![1, 2, 3, 4, 5]), "sid", 1, 3);
    assert_eq!(payloads(&msgs), vec![(1, vec![2, 3, 4])]);
    let past = download_messages(&info, Some(vec![1, 2, 3, 4, 5]), "sid", 3, 100);
    assert_eq!(payloads(&past), vec![(3, vec![4, 5])]);
    let negative = download_messages(&info, Some(vec![1, 2, 3, 4, 5]), "sid", -1, 0);
    assert_eq!(negative.len(), 1);
}

#[test]
fn large_download_announces_the_portal_and_reassembles() {
    let size: usize = 600 * 1024;
    let data: Vec<u8> = (0..size).map(|i| (i % 251) as u8).collect();
    let total = 2 * 1024 * 1024;
    let info = sample_info(total);
    let msgs = download_messages(&info, Some(data.clone()), "abc", 0, 0);
    let chunks = payloads(&msgs);
    assert_eq!(chunks[0], (-1, b"portal://shared_memory/abc".to_vec()));
    let pieces = &chunks[1..];
    assert_eq!(pieces.len(), 3);
    assert_eq!(pieces[0].0, 0);
    assert_eq!(pieces[1].0, 262144);
    assert_eq!(pieces[2].0, 524288);
    assert!(pieces.iter().all(|(_, b)| b.len() <= 262144));
    let joined: Vec<u8> = pieces.iter().flat_map(|(_, b)| b.clone()).collect();
    assert_eq!(joined, data);
}

#[test]
fn unreadable_download_streams_filler_bytes() {
    let info = sample_info(3);
    let msgs = download_messages(&info, None, "s", 0, 0);
    assert_eq!(payloads(&msgs), vec![(0, vec![0xAA, 0xAA, 0xAA])]);
    assert_eq!(filler_bytes(2), vec![0xAA, 0xAA]);
}

#[test]
fn chunk_sizes_by_file_size() {
    assert_eq!(chunk_size(0), 1048576);
    assert_eq!(chunk_size(1048576), 1048576);
    assert_eq!(chunk_size(1048577), 262144);
    assert_eq!(chunk_size(5242879), 262144);
    assert_eq!(chunk_size(-1), 1048576);
}

#[test]
fn download_ticket_finds_the_file() {
    let mut svc = HybridFileServiceV2::new_default();
    let id = upload(&mut svc, "a", "/a", &[7, 8], true);
    let req = DownloadFileRequest { file_id: id.clone(), path: String::new(), offset: 0, length: 0 };
    let ticket = svc.download_file(&req).unwrap();
    assert_eq!(ticket.info.file_id, id);
    assert!(is_token(&ticket.session_id));
    let with = svc.download_file_with(&req, "given".to_string()).unwrap();
    assert_eq!(with.session_id, "given");
    let bad = DownloadFileRequest { file_id: String::new(), path: String::new(), offset: 0, length: 0 };
    assert_eq!(svc.download_file(&bad).unwrap_err().code, ErrorCode::InvalidArgument);
}

#[test]
fn ports_cycle_through_the_range() {
    let mut svc = HybridFileServiceV2::new_default();
    assert_eq!(svc.allocate_portal_port(), 9090);
    assert_eq!(svc.allocate_portal_port(), 9091);
    for _ in 2..111 {
        svc.allocate_portal_port();
    }
    assert_eq!(svc.allocate_portal_port(), 9090);
}

#[test]
fn generated_ids_are_numbered_and_padded() {
    let mut svc = HybridFileServiceV2::new_default();
    assert_eq!(svc.generate_file_id(), "file_0000000001");
    assert_eq!(svc.generate_file_id(), "file_0000000002");
}

#[test]
fn default_permissions() {
    let p = HybridFileServiceV2::create_file_permissions();
    assert_eq!(p.mode, 0o644);
    assert_eq!(p.owner, "user");
    assert_eq!(p.group, "group");
    assert!(p.readable && p.writable && !p.executable);
}

#[test]
fn repeated_session_id_replaces_the_session_and_the_file() {
    let mut svc = HybridFileServiceV2::new_default();
    for data in [&[1u8][..], &[1, 2, 3][..]] {
        let received = vec![meta("a", "/a"), chunk(data)];
        let p = ready(svc.begin_upload_with(&received, false, "same".to_string()).unwrap());
        svc.finish_upload(p, None, true);
    }
    let stats = svc.get_transfer_stats();
    assert_eq!(stats.total_sessions, 1);
    assert_eq!(stats.bytes_transferred, 3);
    let listed = svc.list_files(ListFilesRequest { path: "/".to_string(), recursive: false, include_hidden: true });
    assert_eq!(listed.total_count, 1);
    assert_eq!(listed.total_size, 3);
}

#[test]
fn uploaded_bytes_come_back_from_a_download() {
    let mut svc = HybridFileServiceV2::new_default();
    let data: Vec<u8> = (0..3000u32).map(|i| (i * 7 % 256) as u8).collect();
    let received = vec![meta("r.bin", "/r.bin"), chunk(&data[..1000]), chunk(&data[1000..])];
    let pending = ready(svc.begin_upload(&received, false).unwrap());
    let stored = pending.data.clone();
    let info = svc.finish_upload(pending, None, true).file_info.unwrap();
    let ticket = svc
        .download_file(&DownloadFileRequest {
            file_id: info.file_id.clone(),
            path: String::new(),
            offset: 0,
            length: 0,
        })
        .unwrap();
    let msgs = download_messages(&ticket.info, Some(stored), &ticket.session_id, 0, 0);
    let joined: Vec<u8> = payloads(&msgs).into_iter().flat_map(|(_, b)| b).collect();
    assert_eq!(joined, data);
}

#[test]
fn storing_one_entry_leaves_the_others() {
    let mut svc = HybridFileServiceV2::new_default();
    let first = upload(&mut svc, "one", "/one", &[1], true);
    let before = svc.get_file_info(&info_req(&first)).unwrap();
    upload(&mut svc, "two", "/two", &[2, 2], true);
    let after = svc.get_file_info(&info_req(&first)).unwrap();
    assert_eq!(before.name, after.name);
    assert_eq!(before.size, after.size);
    assert_eq!(before.created_at, after.created_at);
}

#[test]
fn uploaded_entry_reads_back_after_other_operations() {
    let mut svc = HybridFileServiceV2::new_default();
    let id = upload(&mut svc, "keep.txt", "/k/keep.txt", &[1, 2, 3], true);
    svc.create_directory(CreateDirectoryRequest { path: "/k/sub".to_string(), permissions: None })
        .unwrap();
    let other = upload(&mut svc, "other", "/k/other", &[9], false);
    svc.delete_file(&DeleteFileRequest { file_id: other, path: String::new(), recursive: false, force: false })
        .unwrap();
    svc.allocate_portal_port();
    let back = svc.get_file_info(&info_req(&id)).unwrap();
    assert_eq!(back.name, "keep.txt");
    assert_eq!(back.size, 3);
    assert_eq!(back.chunk_count, 1);
    assert_eq!(back.chunk_ids, vec![format!("chunk_{}", id)]);
    let bare = svc
        .get_file_info(&GetFileInfoRequest { file_id: id.clone(), path: String::new(), include_chunks: false })
        .unwrap();
    assert_eq!(bare.chunk_count, 0);
    assert!(bare.chunk_ids.is_empty());
    assert_eq!(bare.name, back.name);
    assert_eq!(bare.size, back.size);
}

#[test]
fn created_directory_blocks_recreation_after_other_operations() {
    let mut svc = HybridFileServiceV2::new_default();
    svc.create_directory(CreateDirectoryRequest { path: "/d".to_string(), permissions: None })
        .unwrap();
    upload(&mut svc, "f", "/d/f", &[1], true);
    svc.create_directory(CreateDirectoryRequest { path: "/e".to_string(), permissions: None })
        .unwrap();
    let before = svc.list_files(ListFilesRequest { path: String::new(), recursive: true, include_hidden: true });
    let again = svc
        .create_directory(CreateDirectoryRequest { path: "/d".to_string(), permissions: None })
        .unwrap_err();
    assert_eq!(again.code, ErrorCode::AlreadyExists);
    let after = svc.list_files(ListFilesRequest { path: String::new(), recursive: true, include_hidden: true });
    assert_eq!(before.total_count, after.total_count);
}

#[test]
fn stats_after_several_uploads() {
    let mut svc = HybridFileServiceV2::new("/tmp/t".to_string());
    for (i, n) in [3usize, 5, 7].iter().enumerate() {
        let data = vec![1u8; *n];
        upload(&mut svc, &format!("f{}", i), &format!("/s/f{}", i), &data, true);
    }
    svc.create_directory(CreateDirectoryRequest { path: "/s2".to_string(), permissions: None }).unwrap();
    let st = svc.get_transfer_stats();
    assert_eq!(st.total_sessions, 3);
    assert_eq!(st.active_uploads, 3);
    assert_eq!(st.shared_memory_sessions, 3);
    assert_eq!(st.active_downloads, 0);
    assert_eq!(st.bytes_transferred, 15);
}

#[test]
fn fit_checks_hold_for_ordinary_states() {
    let mut svc = HybridFileServiceV2::new_default();
    upload(&mut svc, "a", "/a", &[1, 2], false);
    svc.create_directory(CreateDirectoryRequest { path: "/dir".to_string(), permissions: None }).unwrap();
    assert!(svc.listing_fits(&ListFilesRequest { path: "/".to_string(), recursive: true, include_hidden: true }));
    assert!(svc.sync_status_fits(&GetSyncStatusRequest { path: String::new() }));
    assert!(svc.delete_fits(&DeleteFileRequest {
        file_id: String::new(),
        path: "/dir".to_string(),
        recursive: true,
        force: false
    }));
    assert!(svc.delete_fits(&DeleteFileRequest {
        file_id: "nope".to_string(),
        path: String::new(),
        recursive: false,
        force: false
    }));
    assert!(svc.transfers_fit());
}

#[test]
fn download_header_is_the_first_message() {
    let info = sample_info(9);
    let h = librorum_core::download::download_header(&info);
    assert!(matches!(h.data, Some(DownloadData::FileInfo(_))));
    assert_eq!(h.offset, 0);
    assert_eq!(h.total_size, 9);
}

#[test]
fn decimal_rendering() {
    assert_eq!(u64_to_decimal(0), "0");
    assert_eq!(u64_to_decimal(7), "7");
    assert_eq!(u64_to_decimal(10), "10");
    assert_eq!(u64_to_decimal(1234567890), "1234567890");
    assert_eq!(u64_to_decimal(u64::MAX), "18446744073709551615");
}

#[test]
fn session_clone_keeps_the_session() {
    let s = TransferSession {
        session_id: "x".to_string(),
        mode: TransportMode::Network,
        file_size: 4,
        transferred_bytes: 2,
        start_time: std::time::Instant::now(),
        data_portal_address: None,
    };
    let c = s.clone();
    assert_eq!(c.session_id, "x");
    assert_eq!(c.mode, TransportMode::Network);
    assert_eq!(c.start_time, s.start_time);
}
