//! Properties of the service that span its operations, proved over the
//! specifications the operations' contracts use.

use vstd::prelude::*;
use crate::catalog::{
    total_size,
    catalog_insert, catalog_wf, has_id, lemma_filter_keeps_wf, lemma_insert_shape,
    lemma_remove_keeps_wf, outside_prefix,
    position_of_id, under_prefix,
};
use crate::download::{
    MessageView, PayloadView, Piece, chunk_size_for, data_pieces, download_stream, joined, min_int,
    piece_message, pieces, streamed_data, range_end, range_start, lemma_pieces_reassemble,
};
use crate::model::{
    CreateDirectoryResponse, ErrorCode, ErrorView, FileRecord, FileServiceError, MetadataView, PermissionsView,
    SyncStatus, UploadFileResponse, UploadItem, already_exists_error,
};
use crate::service::{
    delete_outcome, directory_record, has_directory, has_path, is_first_with_path,
    first_with_path, listed, locate, overall_status, reported_info, upload_finished,
    upload_record, upload_started, UploadStart, directory_created, last_metadata, uploaded_data, scoped_attention, scoped_with, PendingUpload, ServiceView,
};
use crate::text::{decimal, digit_char, has_prefix};
use crate::transport::{
    ClientIp, PortalPlan, SessionRecord, TransportMode, bytes_moved, is_plan_for, has_session, is_loopback,
    is_shared_memory, is_upload_mode, port_after, session_ids_unique, sessions_insert,
    transport_for,
};

verus! {

/// Storing an entry and then looking it up by its id finds exactly that
/// entry (what an upload or a new directory stores, a lookup gives back).
pub proof fn law_read_after_insert(s: Seq<FileRecord>, r: FileRecord, path: Seq<char>)
    requires
        catalog_wf(s),
        r.size >= 0,
        r.file_id.len() > 0,
    ensures
        catalog_wf(catalog_insert(s, r)),
        locate(catalog_insert(s, r), r.file_id, path) matches Ok(i) && catalog_insert(s, r)[i] == r,
{
    let t = catalog_insert(s, r);
    lemma_insert_shape(s, r);
    let k = choose|k: int| 0 <= k < t.len() && t[k] == r;
    assert(t[k].file_id == r.file_id);
    assert(has_id(t, r.file_id));
    let p = position_of_id(t, r.file_id);
    assert(p == k) by {
        if p != k {
            assert(t[p].file_id == t[k].file_id);
        }
    }
}

/// Storing an entry leaves every entry with another id where it was.
pub proof fn law_insert_keeps_others(s: Seq<FileRecord>, r: FileRecord, id: Seq<char>)
    requires
        catalog_wf(s),
        r.size >= 0,
        id != r.file_id,
    ensures
        has_id(catalog_insert(s, r), id) == has_id(s, id),
        has_id(s, id) ==> catalog_insert(s, r)[position_of_id(catalog_insert(s, r), id)] == s[position_of_id(s, id)],
{
    let t = catalog_insert(s, r);
    lemma_insert_shape(s, r);
    if has_id(s, id) {
        let p = position_of_id(s, id);
        assert(t[p] == s[p]);
        assert(has_id(t, id));
        let q = position_of_id(t, id);
        assert(q == p) by {
            if q != p {
                assert(t[q].file_id == t[p].file_id);
            }
        }
    }
    if has_id(t, id) {
        let q = position_of_id(t, id);
        assert(q < s.len() && t[q] == s[q]);
        assert(has_id(s, id));
    }
}

/// A successful deletion keeps the catalogue invariant, takes away exactly as
/// many entries as it reports, and the entry it was asked for is gone.
pub proof fn law_delete_removes(
    s: Seq<FileRecord>,
    file_id: Seq<char>,
    path: Seq<char>,
    recursive: bool,
    force: bool,
)
    requires
        catalog_wf(s),
        delete_outcome(s, file_id, path, recursive, force) is Ok,
    ensures
        locate(s, file_id, path) is Ok,
        ({
            let i = locate(s, file_id, path)->Ok_0;
            let (t, n) = delete_outcome(s, file_id, path, recursive, force)->Ok_0;
            &&& catalog_wf(t)
            &&& t.len() + n == s.len()
            &&& n >= 1
            &&& !has_id(t, s[i].file_id)
        }),
{
    let i = locate(s, file_id, path)->Ok_0;
    lemma_locate_in_range(s, file_id, path);
    let f = s[i];
    let (t, n) = delete_outcome(s, file_id, path, recursive, force)->Ok_0;
    if f.is_directory && recursive {
        lemma_filter_keeps_wf(s, outside_prefix(f.path));
        lemma_filter_split_len(s, f.path);
        assert(has_prefix(f.path, f.path)) by {
            assert(f.path.subrange(0, f.path.len() as int) =~= f.path);
        }
        assert(s.filter(under_prefix(f.path)).contains(s[i])) by {
            s.lemma_filter_contains(under_prefix(f.path), i);
        }
        assert(s.filter(under_prefix(f.path)).len() >= 1);
        if has_id(t, f.file_id) {
            let q = choose|q: int| 0 <= q < t.len() && #[trigger] t[q].file_id == f.file_id;
            assert(t.contains(t[q]));
            s.lemma_filter_contains_rev(outside_prefix(f.path), t[q]);
            s.lemma_filter_pred(outside_prefix(f.path), q);
            let w = choose|w: int| 0 <= w < s.len() && s[w] == t[q];
            assert(s[w].file_id == s[i].file_id);
            assert(w == i);
        }
    } else {
        let t2 = s.remove(i);
        assert(t == t2);
        lemma_remove_keeps_wf(s, i);
        if has_id(t2, f.file_id) {
            let q = choose|q: int| 0 <= q < t2.len() && #[trigger] t2[q].file_id == f.file_id;
            let q2 = if q < i { q } else { q + 1 };
            assert(s[q2] == t2[q]);
            assert(q2 != i);
        }
    }
}

/// What `locate` finds is a position of the catalogue.
proof fn lemma_locate_in_range(s: Seq<FileRecord>, file_id: Seq<char>, path: Seq<char>)
    ensures
        locate(s, file_id, path) matches Ok(i) ==> 0 <= i < s.len(),
{
    if file_id.len() > 0 {
    } else if path.len() > 0 && has_path(s, path) {
        let w = choose|w: int| 0 <= w < s.len() && #[trigger] s[w].path == path;
        lemma_first_exists(s, path, w);
    }
}

/// If some entry has the path, a first one has it.
proof fn lemma_first_exists(s: Seq<FileRecord>, path: Seq<char>, w: int)
    requires
        0 <= w < s.len(),
        s[w].path == path,
    ensures
        is_first_with_path(s, path, first_with_path(s, path)),
    decreases w,
{
    if exists|j: int| 0 <= j < w && #[trigger] s[j].path == path {
        let j = choose|j: int| 0 <= j < w && #[trigger] s[j].path == path;
        lemma_first_exists(s, path, j);
    } else {
        assert(is_first_with_path(s, path, w));
    }
}

/// Splitting by a path prefix: the entries under it and those outside add up
/// to the whole.
proof fn lemma_filter_split_len(s: Seq<FileRecord>, dir: Seq<char>)
    ensures
        s.filter(outside_prefix(dir)).len() + s.filter(under_prefix(dir)).len() == s.len(),
    decreases s.len(),
{
    reveal(Seq::filter);
    if s.len() > 0 {
        lemma_filter_split_len(s.drop_last(), dir);
    }
}

/// Once a directory has been created at a path, creating it again is refused:
/// the catalogue then holds a directory with that path.
pub proof fn law_directory_exists_after_create(
    s: Seq<FileRecord>,
    path: Seq<char>,
    token: Seq<char>,
    now: i64,
    name: Option<Seq<char>>,
    parent: Option<Seq<char>>,
    permissions: Option<PermissionsView>,
)
    requires
        catalog_wf(s),
    ensures
        has_directory(catalog_insert(s, directory_record(path, token, now, name, parent, permissions)), path),
{
    let r = directory_record(path, token, now, name, parent, permissions);
    lemma_insert_shape(s, r);
    let t = catalog_insert(s, r);
    let k = choose|k: int| 0 <= k < t.len() && t[k] == r;
    assert(t[k].path == path && t[k].is_directory);
}

/// The pieces a download streams are non-empty, at most one chunk long, and
/// together hold exactly the requested bytes that the data has.
pub proof fn law_download_reassembles(data: Seq<u8>, offset: i64, length: i64, total: i64)
    ensures
        ({
            let start = range_start(offset);
            let stop = min_int(range_end(offset, length, total), data.len() as int);
            &&& start <= stop ==> joined(data_pieces(data, offset, length, total)) == data.subrange(start, stop)
            &&& start > stop ==> data_pieces(data, offset, length, total).len() == 0
            &&& forall|k: int|
                0 <= k < data_pieces(data, offset, length, total).len() ==> 0 < #[trigger] data_pieces(
                    data,
                    offset,
                    length,
                    total,
                )[k].bytes.len() <= chunk_size_for(total)
        }),
{
    let start = range_start(offset);
    let stop = min_int(range_end(offset, length, total), data.len() as int);
    let size = chunk_size_for(total) as int;
    if stop < 0 {
        assert(data_pieces(data, offset, length, total).len() == 0);
    } else {
        lemma_pieces_reassemble(data, start, stop, size);
    }
}

/// A whole-file download of an upload's entry, with the data the upload
/// stored, streams back exactly the uploaded bytes.
pub proof fn law_upload_download_roundtrip(
    data: Seq<u8>,
    meta: MetadataView,
    session_id: Seq<char>,
    now: i64,
    parent: Option<Seq<char>>,
    stored: bool,
)
    requires
        data.len() <= i64::MAX,
        data.len() <= usize::MAX,
    ensures
        ({
            let r = upload_record(meta, session_id, data.len() as i64, now, parent, stored);
            joined(data_pieces(data, 0, 0, r.size)) == data
        }),
{
    let size = data.len() as i64;
    assert(range_start(0) == 0);
    assert(range_end(0, 0, size) == data.len());
    lemma_pieces_reassemble(data, 0, data.len() as int, chunk_size_for(size) as int);
    assert(data.subrange(0, data.len() as int) =~= data);
}

/// The port handed out `k` allocations after `p`.
pub open spec fn port_after_n(p: u16, k: nat) -> u16
    decreases k,
{
    if k == 0 {
        p
    } else {
        port_after(port_after_n(p, (k - 1) as nat))
    }
}

/// Portal ports come round again after 111 allocations, and every port
/// handed out lies in 9090..=9200.
pub proof fn law_ports_cycle(p: u16)
    requires
        9090 <= p <= 9200,
    ensures
        port_after_n(p, 111) == p,
        forall|k: nat| 9090 <= #[trigger] port_after_n(p, k) <= 9200,
{
    assert forall|k: nat| 9090 <= #[trigger] port_after_n(p, k) <= 9200 by {
        lemma_ports_in_range(p, k);
    }
    lemma_port_steps(p, 111);
}

proof fn lemma_ports_in_range(p: u16, k: nat)
    requires
        9090 <= p <= 9200,
    ensures
        9090 <= port_after_n(p, k) <= 9200,
    decreases k,
{
    if k > 0 {
        lemma_ports_in_range(p, (k - 1) as nat);
    }
}

/// Within one round, the port `k` allocations after `p` is `p + k` counted
/// modulo the 111 ports.
proof fn lemma_port_steps(p: u16, k: nat)
    requires
        9090 <= p <= 9200,
        k <= 111,
    ensures
        port_after_n(p, k) == 9090 + ((p - 9090 + k) % 111),
    decreases k,
{
    if k > 0 {
        lemma_port_steps(p, (k - 1) as nat);
    }
}

/// Shared-memory sessions are among those that move data, which are among
/// all sessions.
pub proof fn law_stats_ordered(s: Seq<SessionRecord>)
    ensures
        s.filter(is_shared_memory()).len() <= s.filter(is_upload_mode()).len() <= s.len(),
    decreases s.len(),
{
    reveal(Seq::filter);
    if s.len() > 0 {
        law_stats_ordered(s.drop_last());
    }
}

/// A client gets shared memory exactly when it is local or unknown, the
/// network otherwise, and never `Auto`.
pub proof fn law_transport_choice(client: Option<ClientIp>)
    ensures
        transport_for(client) != TransportMode::Auto,
        (transport_for(client) == TransportMode::SharedMemory) == (client matches Some(ip) ==> is_loopback(ip)),
{
}

/// The overall sync state is `Synced` exactly when nothing is in error, in
/// conflict, syncing or waiting.
pub proof fn law_all_clear(errors: int, conflicts: int, syncing: int, pending: int)
    requires
        errors >= 0,
        conflicts >= 0,
        syncing >= 0,
        pending >= 0,
    ensures
        (overall_status(errors, conflicts, syncing, pending) == SyncStatus::Synced) == (errors == 0
            && conflicts == 0 && syncing == 0 && pending == 0),
{
}

/// A step of the catalogue that keeps the entry with id `id`: no change (every
/// query, port allocation and id generation); storing an entry with another id
/// (an upload or a new directory); or a deletion after which an entry with
/// `id` is still there.
pub open spec fn keeps_entry(a: Seq<FileRecord>, b: Seq<FileRecord>, id: Seq<char>) -> bool {
    ||| b == a
    ||| exists|r: FileRecord| #[trigger] catalog_insert(a, r) == b && r.file_id != id && r.size >= 0
    ||| (exists|file_id: Seq<char>, path: Seq<char>, recursive: bool, force: bool|
        #[trigger] delete_outcome(a, file_id, path, recursive, force) is Ok && delete_outcome(
            a,
            file_id,
            path,
            recursive,
            force,
        )->Ok_0.0 == b) && has_id(b, id)
}

/// One step that keeps an entry leaves that entry exactly as it was.
pub proof fn lemma_keeps_entry_step(a: Seq<FileRecord>, b: Seq<FileRecord>, id: Seq<char>)
    requires
        catalog_wf(a),
        has_id(a, id),
        keeps_entry(a, b, id),
    ensures
        catalog_wf(b),
        has_id(b, id),
        b[position_of_id(b, id)] == a[position_of_id(a, id)],
{
    if b == a {
    } else if exists|r: FileRecord| #[trigger] catalog_insert(a, r) == b && r.file_id != id && r.size >= 0 {
        let r = choose|r: FileRecord| #[trigger] catalog_insert(a, r) == b && r.file_id != id && r.size >= 0;
        lemma_insert_shape(a, r);
        law_insert_keeps_others(a, r, id);
    } else {
        let (f, p, rc, fo) = choose|file_id: Seq<char>, path: Seq<char>, recursive: bool, force: bool|
            #[trigger] delete_outcome(a, file_id, path, recursive, force) is Ok && delete_outcome(
                a,
                file_id,
                path,
                recursive,
                force,
            )->Ok_0.0 == b;
        law_delete_removes(a, f, p, rc, fo);
        lemma_locate_in_range(a, f, p);
        let i = locate(a, f, p)->Ok_0;
        let d = a[i];
        let q = position_of_id(b, id);
        assert(0 <= q < b.len() && b[q].file_id == id);
        let pa = position_of_id(a, id);
        assert(0 <= pa < a.len() && a[pa].file_id == id);
        if d.is_directory && rc {
            assert(b == a.filter(outside_prefix(d.path)));
            assert(b.contains(b[q]));
            a.lemma_filter_contains_rev(outside_prefix(d.path), b[q]);
            let w = choose|w: int| 0 <= w < a.len() && a[w] == b[q];
            assert(w == pa) by {
                if w != pa {
                    assert(a[w].file_id == a[pa].file_id);
                }
            }
        } else {
            assert(b == a.remove(i));
            lemma_remove_keeps_wf(a, i);
            let w = if q < i { q } else { q + 1 };
            assert(b[q] == a[w]);
            assert(w == pa) by {
                if w != pa {
                    assert(a[w].file_id == a[pa].file_id);
                }
            }
        }
    }
}

/// An entry survives any run of steps that keep it, unchanged.
pub proof fn law_entry_persists(states: Seq<Seq<FileRecord>>, id: Seq<char>)
    requires
        states.len() > 0,
        catalog_wf(states[0]),
        has_id(states[0], id),
        forall|k: int| 0 <= k < states.len() - 1 ==> #[trigger] keeps_entry(states[k], states[k + 1], id),
    ensures
        catalog_wf(states.last()),
        has_id(states.last(), id),
        states.last()[position_of_id(states.last(), id)] == states[0][position_of_id(states[0], id)],
    decreases states.len(),
{
    if states.len() > 1 {
        let prev = states.drop_last();
        assert forall|k: int| 0 <= k < prev.len() - 1 implies #[trigger] keeps_entry(prev[k], prev[k + 1], id) by {
            assert(keeps_entry(states[k], states[k + 1], id));
            assert(prev[k] == states[k] && prev[k + 1] == states[k + 1]);
        }
        law_entry_persists(prev, id);
        let k = states.len() - 2;
        assert(keeps_entry(states[k], states[k + 1], id));
        assert(prev.last() == states[k]);
        assert(states.last() == states[k + 1]);
        lemma_keeps_entry_step(states[k], states[k + 1], id);
    }
}

/// Ids of uploaded files ("file_…") and of created directories ("dir_…")
/// never coincide.
pub proof fn lemma_file_and_directory_ids_differ(session_id: Seq<char>, token: Seq<char>)
    ensures
        "file_"@ + session_id != "dir_"@ + token,
{
    reveal_strlit("file_");
    reveal_strlit("dir_");
    assert(("file_"@ + session_id)[0] == 'f');
    assert(("dir_"@ + token)[0] == 'd');
}

/// A completed upload is a step that keeps every entry whose id is not the
/// one it stores.
pub proof fn lemma_upload_keeps(
    before: ServiceView,
    after: ServiceView,
    pending: PendingUpload,
    portal: Option<Seq<char>>,
    stored: bool,
    now: i64,
    started: std::time::Instant,
    parent: Option<Seq<char>>,
    resp: UploadFileResponse,
    id: Seq<char>,
)
    requires
        upload_finished(before, after, pending, portal, stored, now, started, parent, resp),
        pending.bytes_uploaded >= 0,
        "file_"@ + pending.session_id@ != id,
    ensures
        keeps_entry(before.files, after.files, id),
{
    let rec = upload_record(pending.metadata@, pending.session_id@, pending.bytes_uploaded, now, parent, stored);
    assert(catalog_insert(before.files, rec) == after.files);
}

/// `create_directory` is a step that keeps every entry whose id is not the
/// one it stores.
pub proof fn lemma_create_directory_keeps(
    before: ServiceView,
    after: ServiceView,
    path: Seq<char>,
    permissions: Option<PermissionsView>,
    token: Seq<char>,
    now: i64,
    name: Option<Seq<char>>,
    parent: Option<Seq<char>>,
    r: Result<CreateDirectoryResponse, FileServiceError>,
    id: Seq<char>,
)
    requires
        directory_created(before, after, path, permissions, token, now, name, parent, r),
        "dir_"@ + token != id,
    ensures
        keeps_entry(before.files, after.files, id),
{
    if !has_directory(before.files, path) {
        let rec = directory_record(path, token, now, name, parent, permissions);
        assert(catalog_insert(before.files, rec) == after.files);
    }
}

/// What an upload stores reads back, through any later steps that keep it
/// (other uploads, new directories, queries, deletions of other entries):
/// `get_file_info` by its id finds it, with or without its chunk ids.
pub proof fn law_upload_reads_back(
    before: ServiceView,
    after: ServiceView,
    pending: PendingUpload,
    portal: Option<Seq<char>>,
    stored: bool,
    now: i64,
    started: std::time::Instant,
    parent: Option<Seq<char>>,
    resp: UploadFileResponse,
    later: Seq<Seq<FileRecord>>,
    path: Seq<char>,
    include_chunks: bool,
)
    requires
        catalog_wf(before.files),
        pending.bytes_uploaded >= 0,
        upload_finished(before, after, pending, portal, stored, now, started, parent, resp),
        later.len() > 0,
        later[0] == after.files,
        forall|k: int|
            0 <= k < later.len() - 1 ==> #[trigger] keeps_entry(
                later[k],
                later[k + 1],
                "file_"@ + pending.session_id@,
            ),
    ensures
        ({
            let rec = upload_record(pending.metadata@, pending.session_id@, pending.bytes_uploaded, now, parent, stored);
            &&& resp.file_info matches Some(f) && f@ == rec
            &&& locate(later.last(), rec.file_id, path) matches Ok(i) && reported_info(
                later.last()[i],
                include_chunks,
            ) == reported_info(rec, include_chunks)
        }),
{
    let rec = upload_record(pending.metadata@, pending.session_id@, pending.bytes_uploaded, now, parent, stored);
    let id = rec.file_id;
    reveal_strlit("file_");
    assert(id.len() > 0);
    law_read_after_insert(before.files, rec, path);
    assert(after.files == catalog_insert(before.files, rec));
    assert(has_id(after.files, id));
    law_entry_persists(later, id);
}

/// Once `create_directory` has succeeded for a path, creating it again is
/// refused with "already exists" and changes nothing, through any later steps
/// that keep that directory (uploads, other new directories with other ids,
/// queries, deletions of other entries).
pub proof fn law_directory_blocks_recreation(
    before: ServiceView,
    after: ServiceView,
    path: Seq<char>,
    permissions: Option<PermissionsView>,
    token: Seq<char>,
    now: i64,
    name: Option<Seq<char>>,
    parent: Option<Seq<char>>,
    r: Result<CreateDirectoryResponse, FileServiceError>,
    later: Seq<Seq<FileRecord>>,
    last: ServiceView,
    again: ServiceView,
    permissions2: Option<PermissionsView>,
    token2: Seq<char>,
    now2: i64,
    name2: Option<Seq<char>>,
    parent2: Option<Seq<char>>,
    r2: Result<CreateDirectoryResponse, FileServiceError>,
)
    requires
        catalog_wf(before.files),
        directory_created(before, after, path, permissions, token, now, name, parent, r),
        r is Ok,
        later.len() > 0,
        later[0] == after.files,
        forall|k: int|
            0 <= k < later.len() - 1 ==> #[trigger] keeps_entry(later[k], later[k + 1], "dir_"@ + token),
        last.files == later.last(),
        directory_created(last, again, path, permissions2, token2, now2, name2, parent2, r2),
    ensures
        r2 matches Err(e) && e@ == already_exists_error(),
        again == last,
{
    let rec = directory_record(path, token, now, name, parent, permissions);
    let id = rec.file_id;
    reveal_strlit("dir_");
    assert(id.len() > 0);
    assert(!has_directory(before.files, path));
    law_read_after_insert(before.files, rec, path);
    assert(has_id(after.files, id));
    law_entry_persists(later, id);
    let q = position_of_id(later.last(), id);
    let p0 = position_of_id(later[0], id);
    assert(locate(after.files, id, path) == Ok::<int, ErrorView>(p0));
    assert(later.last()[q] == rec);
    assert(has_directory(later.last(), path)) by {
        assert(later.last()[q].path == path && later.last()[q].is_directory);
    }
}

/// A recursive listing shows everything the plain one shows, and a listing
/// with hidden entries everything the one without shows.
pub proof fn law_listing_inclusions(s: Seq<FileRecord>, path: Seq<char>, recursive: bool, include_hidden: bool)
    ensures
        forall|x: FileRecord|
            s.filter(listed(path, false, include_hidden)).contains(x) ==> s.filter(
                listed(path, true, include_hidden),
            ).contains(x),
        forall|x: FileRecord|
            s.filter(listed(path, recursive, false)).contains(x) ==> s.filter(
                listed(path, recursive, true),
            ).contains(x),
{
    assert forall|x: FileRecord|
        s.filter(listed(path, false, include_hidden)).contains(x) implies s.filter(
            listed(path, true, include_hidden),
        ).contains(x) by {
        assert(x.parent_path == path ==> has_prefix(x.parent_path, path)) by {
            if x.parent_path == path {
                assert(x.parent_path.subrange(0, path.len() as int) =~= path);
            }
        }
        lemma_filter_implies(s, listed(path, false, include_hidden), listed(path, true, include_hidden), x);
    }
    assert forall|x: FileRecord|
        s.filter(listed(path, recursive, false)).contains(x) implies s.filter(
            listed(path, recursive, true),
        ).contains(x) by {
        lemma_filter_implies(s, listed(path, recursive, false), listed(path, recursive, true), x);
    }
}

/// An element kept by a filter is kept by any weaker filter.
proof fn lemma_filter_implies(
    s: Seq<FileRecord>,
    a: spec_fn(FileRecord) -> bool,
    b: spec_fn(FileRecord) -> bool,
    x: FileRecord,
)
    requires
        s.filter(a).contains(x),
        a(x) ==> b(x),
    ensures
        s.filter(b).contains(x),
{
    let k = choose|k: int| 0 <= k < s.filter(a).len() && s.filter(a)[k] == x;
    s.lemma_filter_pred(a, k);
    s.lemma_filter_contains_rev(a, x);
    let w = choose|w: int| 0 <= w < s.len() && s[w] == x;
    s.lemma_filter_contains(b, w);
}

/// The session table after recording the given sessions one after another
/// (what the completed uploads do; no other operation touches the table).
pub open spec fn replay_sessions(s: Seq<SessionRecord>, added: Seq<SessionRecord>) -> Seq<SessionRecord>
    decreases added.len(),
{
    if added.len() == 0 {
        s
    } else {
        sessions_insert(replay_sessions(s, added.drop_last()), added.last())
    }
}

/// Recording sessions with fresh, distinct ids appends them: the table grows
/// by one session per upload and by the bytes each moved.
pub proof fn law_sessions_after_uploads(s: Seq<SessionRecord>, added: Seq<SessionRecord>)
    requires
        session_ids_unique(s + added),
    ensures
        replay_sessions(s, added) == s + added,
        replay_sessions(s, added).len() == s.len() + added.len(),
        bytes_moved(replay_sessions(s, added)) == bytes_moved(s) + bytes_moved(added),
    decreases added.len(),
{
    if added.len() == 0 {
        assert(s + added =~= s);
    } else {
        let a2 = added.drop_last();
        let last = added.last();
        assert(s + a2 =~= (s + added).drop_last());
        assert forall|i: int, j: int|
            0 <= i < (s + a2).len() && 0 <= j < (s + a2).len() && i != j implies #[trigger] (s
            + a2)[i].session_id != #[trigger] (s + a2)[j].session_id by {
            assert((s + a2)[i] == (s + added)[i] && (s + a2)[j] == (s + added)[j]);
        }
        law_sessions_after_uploads(s, a2);
        let prev = s + a2;
        let n = prev.len() as int;
        assert((s + added)[n] == last);
        assert(!has_session(prev, last.session_id)) by {
            if has_session(prev, last.session_id) {
                let w = choose|w: int| 0 <= w < prev.len() && #[trigger] prev[w].session_id == last.session_id;
                assert((s + added)[w] == prev[w]);
            }
        }
        assert(prev.push(last) =~= s + added);
        assert(added.drop_last() == a2);
        lemma_bytes_moved_concat(s, added);
    }
}

/// The bytes moved by two tables together is the sum of their bytes.
proof fn lemma_bytes_moved_concat(s: Seq<SessionRecord>, t: Seq<SessionRecord>)
    ensures
        bytes_moved(s + t) == bytes_moved(s) + bytes_moved(t),
    decreases t.len(),
{
    if t.len() == 0 {
        assert(s + t =~= s);
    } else {
        lemma_bytes_moved_concat(s, t.drop_last());
        assert((s + t).drop_last() =~= s + t.drop_last());
        assert((s + t).last() == t.last());
    }
}

/// A filter that every element passes keeps the whole sequence.
proof fn lemma_filter_all(s: Seq<SessionRecord>, pred: spec_fn(SessionRecord) -> bool)
    requires
        forall|k: int| 0 <= k < s.len() ==> pred(#[trigger] s[k]),
    ensures
        s.filter(pred) == s,
    decreases s.len(),
{
    reveal(Seq::filter);
    if s.len() > 0 {
        let t = s.drop_last();
        assert forall|k: int| 0 <= k < t.len() implies pred(#[trigger] t[k]) by {
            assert(t[k] == s[k]);
        }
        lemma_filter_all(t, pred);
        assert(pred(s[s.len() - 1]));
        assert(t.push(s.last()) =~= s);
    }
}

/// On a new service, after n uploads with distinct session ids (each of
/// which picks shared memory, the transport for an unknown client), the
/// statistics count n sessions, n moving data and n on shared memory.
pub proof fn law_stats_after_uploads(added: Seq<SessionRecord>)
    requires
        session_ids_unique(added),
        forall|k: int| 0 <= k < added.len() ==> #[trigger] added[k].mode == transport_for(None),
    ensures
        ({
            let t = replay_sessions(Seq::empty(), added);
            &&& t.len() == added.len()
            &&& t.filter(is_upload_mode()).len() == added.len()
            &&& t.filter(is_shared_memory()).len() == added.len()
            &&& bytes_moved(t) == bytes_moved(added)
        }),
{
    let e = Seq::<SessionRecord>::empty();
    assert(e + added =~= added);
    law_sessions_after_uploads(e, added);
    lemma_filter_all(added, is_upload_mode());
    lemma_filter_all(added, is_shared_memory());
}

/// The data bytes a sequence of download messages carries, one message after
/// another (messages without bytes add nothing).
pub open spec fn stream_bytes(ms: Seq<MessageView>) -> Seq<u8>
    decreases ms.len(),
{
    if ms.len() == 0 {
        Seq::empty()
    } else {
        (match ms[0].payload {
            PayloadView::Bytes(b) => b,
            _ => Seq::empty(),
        }) + stream_bytes(ms.drop_first())
    }
}

/// The bytes of piece messages are the bytes of the pieces.
proof fn lemma_stream_bytes_of_pieces(ps: Seq<Piece>, total: i64)
    ensures
        stream_bytes(ps.map_values(|p: Piece| piece_message(p, total))) == joined(ps),
    decreases ps.len(),
{
    let ms = ps.map_values(|p: Piece| piece_message(p, total));
    if ps.len() > 0 {
        assert(ms.drop_first() =~= ps.drop_first().map_values(|p: Piece| piece_message(p, total)));
        lemma_stream_bytes_of_pieces(ps.drop_first(), total);
        assert(ms[0] == piece_message(ps[0], total));
    } else {
        assert(ms.len() == 0);
    }
}

/// A download streams, after its file information (and, for a file over
/// 1 MiB, the portal link), exactly the requested bytes: from `offset` up to
/// `offset + length` when a length is given (else the end of the file), but
/// never past the file size or past the data there is.
pub proof fn law_download_range(
    info: FileRecord,
    data: Seq<u8>,
    session_id: Seq<char>,
    offset: i64,
    length: i64,
)
    requires
        0 <= offset <= usize::MAX,
        0 <= info.size <= usize::MAX,
        length > 0 ==> offset + length <= i64::MAX,
    ensures
        ({
            let ms = download_stream(info, data, session_id, offset, length);
            let h: int = if info.size > 1048576 { 2 } else { 1 };
            let end: int = if length > 0 {
                if offset + length < info.size { offset + length } else { info.size as int }
            } else {
                info.size as int
            };
            let stop: int = if end < data.len() { end } else { data.len() as int };
            &&& ms.len() >= h
            &&& ms[0].payload == PayloadView::Info(info)
            &&& ms[0].offset == 0
            &&& h == 2 ==> ms[1].payload == PayloadView::Bytes(
                vstd::utf8::encode_utf8("portal://shared_memory/"@ + session_id),
            ) && ms[1].offset == -1
            &&& offset <= stop ==> stream_bytes(ms.skip(h)) == data.subrange(offset as int, stop)
            &&& offset > stop ==> ms.len() == h
            &&& forall|k: int|
                0 <= k < ms.skip(h).len() ==> #[trigger] ms.skip(h)[k].offset == offset + stream_bytes(
                    ms.skip(h).take(k),
                ).len()
        }),
{
    let ms = download_stream(info, data, session_id, offset, length);
    let h: int = if info.size > 1048576 { 2 } else { 1 };
    let total = info.size;
    let ps = data_pieces(data, offset, length, total);
    assert(ms.skip(h) =~= ps.map_values(|p: Piece| piece_message(p, total)));
    lemma_stream_bytes_of_pieces(ps, total);
    assert(range_start(offset) == offset);
    if length > 0 {
        let e = if offset + length < total { offset + length } else { total as int };
        assert(0 <= e <= i64::MAX);
        assert(range_end(offset, length, total) == e);
    } else {
        assert(range_end(offset, length, total) == total);
    }
    law_download_reassembles(data, offset, length, total);
    let stop = min_int(range_end(offset, length, total), data.len() as int);
    let size = chunk_size_for(total) as int;
    let tail = ms.skip(h);
    if stop >= 0 {
        lemma_piece_offsets(data, offset as int, stop, size);
    }
    assert forall|k: int| 0 <= k < tail.len() implies #[trigger] tail[k].offset == offset
        + stream_bytes(tail.take(k)).len() by {
        assert(tail.take(k) =~= ps.take(k).map_values(|p: Piece| piece_message(p, total)));
        lemma_stream_bytes_of_pieces(ps.take(k), total);
        assert(tail[k] == piece_message(ps[k], total));
        assert(ps[k].offset < stop);
    }
}

/// Each piece starts where the bytes of the pieces before it end.
proof fn lemma_piece_offsets(data: Seq<u8>, pos: int, stop: int, size: int)
    requires
        0 <= pos,
        0 <= stop <= data.len(),
        size > 0,
    ensures
        forall|k: int|
            0 <= k < pieces(data, pos, stop, size).len() ==> #[trigger] pieces(data, pos, stop, size)[k].offset
                == pos + joined(pieces(data, pos, stop, size).take(k)).len()
                && pieces(data, pos, stop, size)[k].offset < stop,
    decreases stop - pos,
{
    let ps = pieces(data, pos, stop, size);
    if pos < stop && pos + size < stop {
        lemma_piece_offsets(data, pos + size, stop, size);
        let rest = pieces(data, pos + size, stop, size);
        assert(ps.drop_first() =~= rest);
        assert forall|k: int| 0 <= k < ps.len() implies #[trigger] ps[k].offset == pos + joined(
            ps.take(k),
        ).len() && ps[k].offset < stop by {
            if k == 0 {
                assert(ps.take(0).len() == 0);
            } else {
                assert(ps[k] == rest[k - 1]);
                assert(ps.take(k).drop_first() =~= rest.take(k - 1));
                assert(ps.take(k)[0] == ps[0]);
                assert(ps[0].bytes.len() == size);
            }
        }
    } else if pos < stop {
        assert forall|k: int| 0 <= k < ps.len() implies #[trigger] ps[k].offset == pos + joined(
            ps.take(k),
        ).len() && ps[k].offset < stop by {
            assert(k == 0);
            assert(ps.take(0).len() == 0);
        }
    }
}

/// A portal plan for a network transfer hands out the fixed TCP endpoint; any
/// other plan is a shared-memory region named after the session that holds
/// the whole file: at least the file size and at least 1 MiB, and no larger
/// than the larger of the two.
pub proof fn law_plan_holds_the_file(plan: PortalPlan, session_id: Seq<char>, mode: TransportMode, file_size: u64)
    requires
        is_plan_for(plan, session_id, mode, file_size),
        file_size <= usize::MAX,
    ensures
        mode == TransportMode::Network ==> (plan matches PortalPlan::Network { address } && address@
            == "127.0.0.1:9090"@),
        mode != TransportMode::Network ==> (plan matches PortalPlan::SharedMemory { shm_path, shm_size }
            && shm_path@ == "/librorum_transfer_"@ + session_id && shm_size >= file_size && shm_size
            >= 1048576 && (shm_size == file_size || shm_size == 1048576)),
{
}

/// Whether an entry is in a filtered sequence, by its membership and the
/// predicate.
proof fn lemma_filter_member(s: Seq<FileRecord>, pred: spec_fn(FileRecord) -> bool)
    ensures
        forall|x: FileRecord| #[trigger] s.filter(pred).contains(x) ==> s.contains(x) && pred(x),
        forall|j: int| 0 <= j < s.len() && pred(s[j]) ==> #[trigger] s.filter(pred).contains(s[j]),
{
    assert forall|x: FileRecord| #[trigger] s.filter(pred).contains(x) implies s.contains(x) && pred(x) by {
        let k = choose|k: int| 0 <= k < s.filter(pred).len() && s.filter(pred)[k] == x;
        s.lemma_filter_pred(pred, k);
        s.lemma_filter_contains_rev(pred, x);
    }
    assert forall|j: int| 0 <= j < s.len() && pred(s[j]) implies #[trigger] s.filter(pred).contains(s[j]) by {
        s.lemma_filter_contains(pred, j);
    }
}

/// Deleting a directory with `recursive` set, whatever `force` says, takes
/// away every entry whose path starts with the directory's path (the directory
/// itself included) and nothing else, and counts them.
pub proof fn law_recursive_delete_clears_prefix(s: Seq<FileRecord>, file_id: Seq<char>, path: Seq<char>, force: bool)
    requires
        catalog_wf(s),
        locate(s, file_id, path) is Ok,
        s[locate(s, file_id, path)->Ok_0].is_directory,
    ensures
        ({
            let d = s[locate(s, file_id, path)->Ok_0].path;
            let out = delete_outcome(s, file_id, path, true, force);
            &&& out is Ok
            &&& forall|k: int| 0 <= k < out->Ok_0.0.len() ==> !has_prefix(#[trigger] out->Ok_0.0[k].path, d)
            &&& forall|j: int| 0 <= j < s.len() && !has_prefix(s[j].path, d) ==> #[trigger] out->Ok_0.0.contains(s[j])
            &&& forall|k: int| 0 <= k < out->Ok_0.0.len() ==> s.contains(#[trigger] out->Ok_0.0[k])
            &&& out->Ok_0.1 + out->Ok_0.0.len() == s.len()
            &&& out->Ok_0.1 >= 1
        }),
{
    let i = locate(s, file_id, path)->Ok_0;
    let d = s[i].path;
    let t = s.filter(outside_prefix(d));
    law_delete_removes(s, file_id, path, true, force);
    lemma_filter_member(s, outside_prefix(d));
    assert forall|k: int| 0 <= k < t.len() implies !has_prefix(#[trigger] t[k].path, d) && s.contains(t[k]) by {
        assert(t.contains(t[k]));
    }
}

/// Deleting a plain file, or a directory with `force` but without
/// `recursive`, takes away exactly that entry; a directory with neither flag
/// is refused and nothing changes.
pub proof fn law_single_delete(s: Seq<FileRecord>, file_id: Seq<char>, path: Seq<char>, recursive: bool, force: bool)
    requires
        locate(s, file_id, path) is Ok,
    ensures
        ({
            let i = locate(s, file_id, path)->Ok_0;
            let f = s[i];
            let out = delete_outcome(s, file_id, path, recursive, force);
            &&& !f.is_directory ==> out == Ok::<(Seq<FileRecord>, nat), ErrorView>((s.remove(i), 1))
            &&& f.is_directory && !recursive && force ==> out == Ok::<(Seq<FileRecord>, nat), ErrorView>((s.remove(i), 1))
            &&& f.is_directory && !recursive && !force ==> out is Err && out->Err_0.code == ErrorCode::FailedPrecondition
        }),
{
}

/// A sync-status query under `path` covers exactly the entries whose own path
/// starts with `path` (all entries when it is empty): each such entry in a
/// given state is counted in that state, those pending, in error or in
/// conflict are listed as needing attention, and nothing else is.
pub proof fn law_sync_scope(s: Seq<FileRecord>, path: Seq<char>, st: SyncStatus)
    ensures
        forall|j: int|
            0 <= j < s.len() && s[j].sync_status == st && (path.len() == 0 || has_prefix(s[j].path, path))
                ==> #[trigger] s.filter(scoped_with(path, st)).contains(s[j]),
        forall|x: FileRecord|
            #[trigger] s.filter(scoped_with(path, st)).contains(x) ==> s.contains(x) && x.sync_status == st
                && (path.len() == 0 || has_prefix(x.path, path)),
        forall|j: int|
            0 <= j < s.len() && (path.len() == 0 || has_prefix(s[j].path, path)) && (s[j].sync_status
                == SyncStatus::Pending || s[j].sync_status == SyncStatus::Error || s[j].sync_status
                == SyncStatus::Conflict) ==> #[trigger] s.filter(scoped_attention(path)).contains(s[j]),
        forall|x: FileRecord|
            #[trigger] s.filter(scoped_attention(path)).contains(x) ==> s.contains(x) && (path.len() == 0
                || has_prefix(x.path, path)) && (x.sync_status == SyncStatus::Pending || x.sync_status
                == SyncStatus::Error || x.sync_status == SyncStatus::Conflict),
{
    lemma_filter_member(s, scoped_with(path, st));
    lemma_filter_member(s, scoped_attention(path));
}

/// A listing shows exactly the entries whose parent path is `path` (or, when
/// recursive, starts with `path`), leaving out those whose name starts with a
/// dot unless hidden entries are asked for, recursive or not.
pub proof fn law_listing_rules(s: Seq<FileRecord>, path: Seq<char>, recursive: bool, include_hidden: bool)
    ensures
        forall|x: FileRecord|
            #[trigger] s.filter(listed(path, recursive, include_hidden)).contains(x) ==> {
                &&& s.contains(x)
                &&& recursive ==> has_prefix(x.parent_path, path)
                &&& !recursive ==> x.parent_path == path
                &&& !include_hidden ==> !(x.name.len() > 0 && x.name[0] == '.')
            },
        forall|j: int|
            0 <= j < s.len() && (if recursive {
                has_prefix(s[j].parent_path, path)
            } else {
                s[j].parent_path == path
            }) && (include_hidden || !(s[j].name.len() > 0 && s[j].name[0] == '.'))
                ==> #[trigger] s.filter(listed(path, recursive, include_hidden)).contains(s[j]),
{
    lemma_filter_member(s, listed(path, recursive, include_hidden));
}

/// Gathering an upload stream is compositional: the data of two runs of
/// messages is the data of the first followed by that of the second, a chunk
/// contributes its bytes, and other messages contribute nothing; the metadata
/// is that of the later run if it has any, else that of the earlier, a
/// metadata message giving its own.
pub proof fn law_upload_stream_composes(a: Seq<UploadItem>, b: Seq<UploadItem>)
    ensures
        uploaded_data(a + b) == uploaded_data(a) + uploaded_data(b),
        last_metadata(a + b) == (match last_metadata(b) {
            Some(m) => Some(m),
            None => last_metadata(a),
        }),
        forall|c: Seq<u8>| #[trigger] uploaded_data(seq![UploadItem::Bytes(c)]) == c,
        forall|m: MetadataView| #[trigger] uploaded_data(seq![UploadItem::Meta(m)]) == Seq::<u8>::empty(),
        uploaded_data(seq![UploadItem::Empty]) == Seq::<u8>::empty(),
        forall|m: MetadataView| #[trigger] last_metadata(seq![UploadItem::Meta(m)]) == Some(m),
        forall|c: Seq<u8>| #[trigger] last_metadata(seq![UploadItem::Bytes(c)]) == None::<MetadataView>,
        uploaded_data(Seq::empty()) == Seq::<u8>::empty(),
        last_metadata(Seq::empty()) == None::<MetadataView>,
    decreases b.len(),
{
    if b.len() == 0 {
        assert(a + b =~= a);
    } else {
        law_upload_stream_composes(a, b.drop_last());
        assert((a + b).drop_last() =~= a + b.drop_last());
        assert((a + b).last() == b.last());
    }
    assert(uploaded_data(Seq::<UploadItem>::empty()) == Seq::<u8>::empty());
    assert forall|c: Seq<u8>| #[trigger] uploaded_data(seq![UploadItem::Bytes(c)]) == c by {
        let q = seq![UploadItem::Bytes(c)];
        assert(q.drop_last() =~= Seq::<UploadItem>::empty());
        assert(q.last() == UploadItem::Bytes(c));
        assert(uploaded_data(q.drop_last()) == Seq::<u8>::empty());
        assert(Seq::<u8>::empty() + c =~= c);
    }
    assert forall|m: MetadataView| #[trigger] uploaded_data(seq![UploadItem::Meta(m)]) == Seq::<u8>::empty() by {
        let q = seq![UploadItem::Meta(m)];
        assert(q.drop_last() =~= Seq::<UploadItem>::empty());
        assert(q.last() == UploadItem::Meta(m));
        assert(uploaded_data(q.drop_last()) == Seq::<u8>::empty());
    }
    assert(seq![UploadItem::Empty].drop_last() =~= Seq::<UploadItem>::empty());
    assert forall|c: Seq<u8>| #[trigger] last_metadata(seq![UploadItem::Bytes(c)]) == None::<MetadataView> by {
        assert(seq![UploadItem::Bytes(c)].drop_last() =~= Seq::<UploadItem>::empty());
    }
}

/// Which entry a request names: with a non-empty id, the entry with that id
/// (not found if there is none), whatever the path; with an empty id and a
/// non-empty path, the first entry with that path (not found if there is
/// none); with neither, the request is invalid.
pub proof fn law_locate_rules(s: Seq<FileRecord>, file_id: Seq<char>, path: Seq<char>)
    requires
        catalog_wf(s),
    ensures
        file_id.len() > 0 ==> {
            &&& (locate(s, file_id, path) is Ok) == (exists|j: int| 0 <= j < s.len() && #[trigger] s[j].file_id == file_id)
            &&& locate(s, file_id, path) matches Ok(i) ==> 0 <= i < s.len() && s[i].file_id == file_id
            &&& locate(s, file_id, path) matches Err(e) ==> e.code == ErrorCode::NotFound
        },
        file_id.len() == 0 && path.len() > 0 ==> {
            &&& (locate(s, file_id, path) is Ok) == (exists|j: int| 0 <= j < s.len() && #[trigger] s[j].path == path)
            &&& locate(s, file_id, path) matches Ok(i) ==> 0 <= i < s.len() && s[i].path == path
                && forall|j: int| 0 <= j < i ==> #[trigger] s[j].path != path
            &&& locate(s, file_id, path) matches Err(e) ==> e.code == ErrorCode::NotFound
        },
        file_id.len() == 0 && path.len() == 0 ==> (locate(s, file_id, path) matches Err(e) && e.code
            == ErrorCode::InvalidArgument),
{
    if file_id.len() == 0 && path.len() > 0 && has_path(s, path) {
        let w = choose|w: int| 0 <= w < s.len() && #[trigger] s[w].path == path;
        lemma_first_exists(s, path, w);
    }
}

/// The size of a listing is additive: the total of two runs of entries is the
/// sum of their totals, and one entry weighs its size.
pub proof fn law_total_size_additive(a: Seq<FileRecord>, b: Seq<FileRecord>)
    ensures
        total_size(a + b) == total_size(a) + total_size(b),
        forall|r: FileRecord| #[trigger] total_size(seq![r]) == r.size,
        total_size(Seq::<FileRecord>::empty()) == 0,
    decreases b.len(),
{
    if b.len() == 0 {
        assert(a + b =~= a);
    } else {
        law_total_size_additive(a, b.drop_last());
        assert((a + b).drop_last() =~= a + b.drop_last());
        assert((a + b).last() == b.last());
    }
    assert(total_size(Seq::<FileRecord>::empty()) == 0);
    assert forall|r: FileRecord| #[trigger] total_size(seq![r]) == r.size by {
        let q = seq![r];
        assert(q.drop_last() =~= Seq::<FileRecord>::empty());
        assert(q.last() == r);
        assert(total_size(q.drop_last()) == 0);
    }
}

/// The overall sync state puts errors and conflicts first, then anything
/// syncing or waiting, and is synced only when all is clear.
pub proof fn law_status_priority(errors: int, conflicts: int, syncing: int, pending: int)
    ensures
        errors > 0 || conflicts > 0 ==> overall_status(errors, conflicts, syncing, pending) == SyncStatus::Error,
        errors <= 0 && conflicts <= 0 && (syncing > 0 || pending > 0) ==> overall_status(errors, conflicts, syncing, pending)
            == SyncStatus::Syncing,
        errors <= 0 && conflicts <= 0 && syncing <= 0 && pending <= 0 ==> overall_status(errors, conflicts, syncing, pending)
            == SyncStatus::Synced,
{
}

/// The transport by client address: an IPv4 client gets shared memory
/// exactly when its first octet is 127, an IPv6 client exactly when it is
/// `::1`, an unknown client always.
pub proof fn law_transport_by_address(client: Option<ClientIp>)
    ensures
        client is None ==> transport_for(client) == TransportMode::SharedMemory,
        client matches Some(ClientIp::V4(o)) ==> (transport_for(client) == TransportMode::SharedMemory)
            == (o@[0] == 127u8) && (transport_for(client) == TransportMode::Network) == (o@[0] != 127u8),
        client matches Some(ClientIp::V6(g)) ==> (transport_for(client) == TransportMode::SharedMemory)
            == (g@ =~= seq![0u16, 0u16, 0u16, 0u16, 0u16, 0u16, 0u16, 1u16]) && (transport_for(client)
            == TransportMode::Network) == !(g@ =~= seq![0u16, 0u16, 0u16, 0u16, 0u16, 0u16, 0u16, 1u16]),
{
}

/// An entry reported with its chunks is the entry itself; without them, it
/// is the entry with no chunk ids and a chunk count of 0, every other field
/// kept.
pub proof fn law_reported_info(r: FileRecord)
    ensures
        reported_info(r, true) == r,
        reported_info(r, false).chunk_ids == Seq::<Seq<char>>::empty(),
        reported_info(r, false).chunk_count == 0,
        reported_info(r, false) == (FileRecord { chunk_ids: Seq::empty(), chunk_count: 0, ..r }),
{
}

/// `p` is a prefix of `s` exactly when `s` is `p` followed by something.
pub proof fn law_prefix_meaning(s: Seq<char>, p: Seq<char>)
    ensures
        has_prefix(s, p) == exists|t: Seq<char>| #[trigger] (p + t) == s,
{
    if has_prefix(s, p) {
        let t = s.subrange(p.len() as int, s.len() as int);
        assert(p + t =~= s);
    }
    if exists|t: Seq<char>| #[trigger] (p + t) == s {
        let t = choose|t: Seq<char>| #[trigger] (p + t) == s;
        assert(s.subrange(0, p.len() as int) =~= p);
    }
}

/// The numeric value of a string of decimal digits.
pub open spec fn digits_value(ds: Seq<char>) -> int
    decreases ds.len(),
{
    if ds.len() == 0 {
        0
    } else {
        digits_value(ds.drop_last()) * 10 + (ds.last() as int - '0' as int)
    }
}

/// The decimal notation of `n` is made of digits, reads back as `n`, and has
/// no leading zero (zero itself is "0").
pub proof fn law_decimal_reads_back(n: nat)
    ensures
        forall|i: int| 0 <= i < decimal(n).len() ==> '0' <= #[trigger] decimal(n)[i] <= '9',
        digits_value(decimal(n)) == n,
        decimal(n).len() >= 1,
        n > 0 ==> decimal(n)[0] != '0',
        n == 0 ==> decimal(n) == seq!['0'],
    decreases n,
{
    lemma_digit_char(n % 10);
    if n < 10 {
        lemma_digit_char(n);
        let q = seq![digit_char(n)];
        assert(q.drop_last() =~= Seq::<char>::empty());
        assert(digits_value(q.drop_last()) == 0);
        assert(q.last() == digit_char(n));
    } else {
        law_decimal_reads_back(n / 10);
        let d = decimal(n / 10);
        let c = digit_char(n % 10);
        assert(decimal(n) == d.push(c));
        assert(d.push(c).drop_last() =~= d);
        assert(d.push(c).last() == c);
        assert(digits_value(d.push(c)) == digits_value(d) * 10 + (c as int - '0' as int));
        assert(n == (n / 10) * 10 + n % 10) by (nonlinear_arith);
        assert(decimal(n)[0] == d[0]);
        assert forall|i: int| 0 <= i < decimal(n).len() implies '0' <= #[trigger] decimal(n)[i] <= '9' by {
            if i < d.len() {
                assert(decimal(n)[i] == d[i]);
            }
        }
    }
}

/// The digit character of a value below ten is that digit.
proof fn lemma_digit_char(d: nat)
    requires
        d < 10,
    ensures
        '0' <= digit_char(d) <= '9',
        digit_char(d) as int - '0' as int == d,
        d > 0 ==> digit_char(d) != '0',
{
}

/// `create_directory` is refused exactly when a directory entry with the same
/// path exists (a plain file with that path does not block it); when it
/// succeeds, the catalogue gains a directory entry of size 0 at that path
/// under the id "dir_" and the token, answered back, and nothing else changes
/// but the catalogue.
pub proof fn law_create_directory_rules(
    before: ServiceView,
    after: ServiceView,
    path: Seq<char>,
    permissions: Option<PermissionsView>,
    token: Seq<char>,
    now: i64,
    name: Option<Seq<char>>,
    parent: Option<Seq<char>>,
    r: Result<CreateDirectoryResponse, FileServiceError>,
)
    requires
        catalog_wf(before.files),
        directory_created(before, after, path, permissions, token, now, name, parent, r),
    ensures
        (r is Err) == (exists|j: int| 0 <= j < before.files.len() && #[trigger] before.files[j].path == path
            && before.files[j].is_directory),
        r is Err ==> after == before,
        r matches Ok(resp) ==> resp.success && (resp.directory_info matches Some(f) && {
            &&& f@.is_directory
            &&& f@.path == path
            &&& f@.size == 0
            &&& f@.file_id == "dir_"@ + token
            &&& f@.file_type == crate::model::FileType::Directory
            &&& after.files.contains(f@)
            &&& after.sessions == before.sessions
            &&& after.file_counter == before.file_counter
            &&& after.next_port == before.next_port
        }),
{
    if !has_directory(before.files, path) {
        let rec = directory_record(path, token, now, name, parent, permissions);
        lemma_insert_shape(before.files, rec);
    }
}

/// What an upload stores carries the uploaded metadata over: its name, path,
/// type and checksum, the uploaded byte count as size, the id "file_" and the
/// session id with one chunk named after it, and a synced state exactly when
/// the data was stored.
pub proof fn law_upload_record_fields(
    meta: MetadataView,
    session_id: Seq<char>,
    bytes: i64,
    now: i64,
    parent: Option<Seq<char>>,
    stored: bool,
)
    ensures
        ({
            let r = upload_record(meta, session_id, bytes, now, parent, stored);
            &&& r.name == meta.name && r.path == meta.path
            &&& r.mime_type == meta.mime_type && r.checksum == meta.checksum
            &&& r.is_compressed == meta.compress && r.is_encrypted == meta.encrypt
            &&& r.size == bytes
            &&& r.file_id == "file_"@ + session_id
            &&& r.chunk_count == 1 && r.chunk_ids == seq!["chunk_"@ + ("file_"@ + session_id)]
            &&& !r.is_directory && r.file_type == crate::model::FileType::Regular
            &&& (r.sync_status == SyncStatus::Synced) == stored
            &&& (r.sync_status == SyncStatus::Error) == !stored
            &&& r.parent_path == (match parent { Some(p) => p, None => "/"@ })
            &&& r.created_at == now && r.modified_at == now
        }),
{
}

/// The first step of an upload that has metadata carries the gathered bytes,
/// counts them, picks shared memory for the (unknown) client, and plans a
/// shared-memory region that holds them.
pub proof fn law_upload_start(items: Seq<UploadItem>, session_id: Seq<char>, r: Result<UploadStart, FileServiceError>)
    requires
        upload_started(items, false, session_id, r),
        last_metadata(items) is Some,
        uploaded_data(items).len() <= usize::MAX,
    ensures
        r matches Ok(UploadStart::Ready(p)) && {
            &&& p.data@ == uploaded_data(items)
            &&& p.bytes_uploaded == p.data@.len()
            &&& p.mode == TransportMode::SharedMemory
            &&& p.plan matches PortalPlan::SharedMemory { shm_size, .. } && shm_size >= p.data@.len()
                && shm_size >= 1048576
        },
{
    let p = r->Ok_0->Ready_0;
    law_plan_holds_the_file(p.plan, session_id, p.mode, p.bytes_uploaded as u64);
}

/// A download whose data could not be read streams filler: `size` bytes, all
/// 0xAA.
pub proof fn law_download_filler(info: FileRecord)
    requires
        0 <= info.size <= usize::MAX,
    ensures
        streamed_data(info, None).len() == info.size,
        forall|i: int| 0 <= i < info.size ==> #[trigger] streamed_data(info, None)[i] == 0xAAu8,
{
}

} // verus!
