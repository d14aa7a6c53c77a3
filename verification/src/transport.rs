//! Transport selection and data-portal transfer bookkeeping: which transport
//! a client gets, which portal port comes next, what a portal transfer needs,
//! and the table of transfer sessions with its statistics.

use vstd::prelude::*;
use crate::catalog::{keys_unique, lemma_store_keeps_keys_unique};
use crate::text::{join2, owned};

verus! {

/// How file data travels between client and server.
#[derive(Clone, Copy, Debug, PartialEq, Eq, Structural)]
pub enum TransportMode {
    /// TCP over the network.
    Network,
    /// POSIX shared memory (zero copy).
    SharedMemory,
    /// Let the server choose.
    Auto,
}

/// The IP address a client connects from.
#[derive(Clone, Copy, Debug, PartialEq, Eq)]
pub enum ClientIp {
    V4([u8; 4]),
    V6([u16; 8]),
}

/// A loopback address: `127.x.y.z` for IPv4, `::1` for IPv6. (An IPv4 address
/// written in dotted form starts with "127." exactly when its first octet is
/// 127, so that test adds nothing to this one.)
pub open spec fn is_loopback(ip: ClientIp) -> bool {
    match ip {
        ClientIp::V4(o) => o@[0] == 127u8,
        ClientIp::V6(s) => s@ == seq![0u16, 0u16, 0u16, 0u16, 0u16, 0u16, 0u16, 1u16],
    }
}

/// The transport a client gets: shared memory for a local (loopback) client
/// or an unknown one, the network otherwise.
pub open spec fn transport_for(client: Option<ClientIp>) -> TransportMode {
    match client {
        Some(ip) => if is_loopback(ip) {
            TransportMode::SharedMemory
        } else {
            TransportMode::Network
        },
        None => TransportMode::SharedMemory,
    }
}

/// Whether an address is a loopback address.
pub fn ip_is_loopback(ip: &ClientIp) -> (b: bool)
    ensures
        b == is_loopback(*ip),
{
    match ip {
        ClientIp::V4(o) => o[0] == 127,
        ClientIp::V6(s) => {
            let r = s[0] == 0 && s[1] == 0 && s[2] == 0 && s[3] == 0 && s[4] == 0 && s[5] == 0
                && s[6] == 0 && s[7] == 1;
            assert(r ==> s@ =~= seq![0u16, 0u16, 0u16, 0u16, 0u16, 0u16, 0u16, 1u16]);
            proof {
                if s@ == seq![0u16, 0u16, 0u16, 0u16, 0u16, 0u16, 0u16, 1u16] {
                    assert(s@[7] == 1u16);
                }
            }
            r
        },
    }
}

/// Chooses the transport for a client address (none when it is not known).
pub fn select_transport_mode(client: Option<ClientIp>) -> (m: TransportMode)
    ensures
        m == transport_for(client),
{
    match client {
        Some(ip) => {
            if ip_is_loopback(&ip) {
                TransportMode::SharedMemory
            } else {
                TransportMode::Network
            }
        },
        None => TransportMode::SharedMemory,
    }
}

/// The first data-portal port.
pub const FIRST_PORTAL_PORT: u16 = 9090;

/// The last data-portal port; after it the allocation wraps to the first.
pub const LAST_PORTAL_PORT: u16 = 9200;

/// The port handed out after `p`.
pub open spec fn port_after(p: u16) -> u16 {
    if p + 1 > LAST_PORTAL_PORT {
        FIRST_PORTAL_PORT
    } else {
        (p + 1) as u16
    }
}

/// Hands out data-portal ports in turn, cycling through 9090..=9200.
pub struct PortAllocator {
    next: u16,
}

impl PortAllocator {
    /// The port the next allocation returns.
    pub closed spec fn next_port(&self) -> u16 {
        self.next
    }

    /// The next port lies in the portal range.
    pub open spec fn wf(&self) -> bool {
        FIRST_PORTAL_PORT <= self.next_port() <= LAST_PORTAL_PORT
    }

    /// An allocator whose first port is 9090.
    pub fn new() -> (a: Self)
        ensures
            a.wf(),
            a.next_port() == FIRST_PORTAL_PORT,
    {
        PortAllocator { next: FIRST_PORTAL_PORT }
    }

    /// Returns the next port and advances, wrapping from 9200 back to 9090.
    pub fn allocate(&mut self) -> (port: u16)
        requires
            old(self).wf(),
        ensures
            final(self).wf(),
            port == old(self).next_port(),
            final(self).next_port() == port_after(port),
    {
        let port = self.next;
        self.next = self.next + 1;
        if self.next > LAST_PORTAL_PORT {
            self.next = FIRST_PORTAL_PORT;
        }
        port
    }
}

/// The smallest shared-memory region created for a transfer (1 MiB).
pub const MIN_SHARED_MEMORY_SIZE: usize = 1048576;

/// What it takes to serve one transfer through the data portal.
#[derive(Debug)]
pub enum PortalPlan {
    /// Create a shared-memory region of `shm_size` bytes named `shm_path`,
    /// write the file data at offset 0, and hand out `shm_path`.
    SharedMemory { shm_path: String, shm_size: usize },
    /// Hand out a TCP endpoint.
    Network { address: String },
}

/// The shared-memory name used for a transfer session.
pub open spec fn shm_name(session_id: Seq<char>) -> Seq<char> {
    "/librorum_transfer_"@ + session_id
}

/// The TCP endpoint handed out for network transfers.
pub open spec fn network_endpoint() -> Seq<char> {
    "127.0.0.1:9090"@
}

/// The size of the shared-memory region for a file of `file_size` bytes: the
/// file size, but at least 1 MiB.
pub open spec fn shm_size_for(file_size: u64) -> usize {
    if (file_size as usize) < MIN_SHARED_MEMORY_SIZE {
        MIN_SHARED_MEMORY_SIZE
    } else {
        file_size as usize
    }
}

/// Whether `plan` is the data-portal plan for a session, transport and file
/// size: shared memory named after the session (for `SharedMemory`, and for
/// `Auto`, which defaults to it) or the TCP endpoint (for `Network`).
pub open spec fn is_plan_for(plan: PortalPlan, session_id: Seq<char>, mode: TransportMode, file_size: u64) -> bool {
    match mode {
        TransportMode::Network => plan matches PortalPlan::Network { address } && address@
            == network_endpoint(),
        _ => plan matches PortalPlan::SharedMemory { shm_path, shm_size } && shm_path@
            == shm_name(session_id) && shm_size == shm_size_for(file_size),
    }
}

/// Plans a data-portal transfer: shared memory named after the session (for
/// `SharedMemory`, and for `Auto`, which defaults to it) or the TCP endpoint
/// (for `Network`).
pub fn plan_data_portal(session_id: &str, mode: TransportMode, file_size: u64) -> (plan:
    PortalPlan)
    ensures
        is_plan_for(plan, session_id@, mode, file_size),
{
    match mode {
        TransportMode::Network => PortalPlan::Network { address: owned("127.0.0.1:9090") },
        _ => {
            let wanted = file_size as usize;
            let shm_size = if wanted < MIN_SHARED_MEMORY_SIZE {
                MIN_SHARED_MEMORY_SIZE
            } else {
                wanted
            };
            PortalPlan::SharedMemory {
                shm_path: join2("/librorum_transfer_", session_id),
                shm_size,
            }
        },
    }
}

impl PortalPlan {
    /// The connection information handed to the client once the plan has been
    /// carried out: the shared-memory name if the region could be created and
    /// filled, nothing if not; the TCP endpoint always.
    pub fn address_if_ready(&self, shared_memory_ready: bool) -> (addr: Option<String>)
        ensures
            match *self {
                PortalPlan::SharedMemory { shm_path, .. } => if shared_memory_ready {
                    addr matches Some(a) && a@ == shm_path@
                } else {
                    addr is None
                },
                PortalPlan::Network { address } => addr matches Some(a) && a@ == address@,
            },
    {
        match self {
            PortalPlan::SharedMemory { shm_path, .. } => if shared_memory_ready {
                Some(shm_path.clone())
            } else {
                None
            },
            PortalPlan::Network { address } => Some(address.clone()),
        }
    }
}

/// One transfer session.
#[derive(Debug)]
pub struct TransferSession {
    pub session_id: String,
    pub mode: TransportMode,
    pub file_size: u64,
    pub transferred_bytes: u64,
    pub start_time: std::time::Instant,
    pub data_portal_address: Option<String>,
}

/// The view of an optional string.
pub open spec fn opt_text(o: Option<String>) -> Option<Seq<char>> {
    match o {
        Some(s) => Some(s@),
        None => None,
    }
}

/// A copy of an optional string.
pub fn duplicate_text(o: &Option<String>) -> (r: Option<String>)
    ensures
        opt_text(r) == opt_text(*o),
{
    match o {
        Some(s) => Some(s.clone()),
        None => None,
    }
}

/// The mathematical value of a `TransferSession`.
pub struct SessionRecord {
    pub session_id: Seq<char>,
    pub mode: TransportMode,
    pub file_size: u64,
    pub transferred_bytes: u64,
    pub start_time: std::time::Instant,
    pub data_portal_address: Option<Seq<char>>,
}

impl View for TransferSession {
    type V = SessionRecord;

    open spec fn view(&self) -> SessionRecord {
        SessionRecord {
            session_id: self.session_id@,
            mode: self.mode,
            file_size: self.file_size,
            transferred_bytes: self.transferred_bytes,
            start_time: self.start_time,
            data_portal_address: opt_text(self.data_portal_address),
        }
    }
}

impl Clone for TransferSession {
    fn clone(&self) -> (r: Self)
        ensures
            r@ == self@,
    {
        TransferSession {
            session_id: self.session_id.clone(),
            mode: self.mode,
            file_size: self.file_size,
            transferred_bytes: self.transferred_bytes,
            start_time: self.start_time,
            data_portal_address: duplicate_text(&self.data_portal_address),
        }
    }
}

/// No two sessions share an id.
pub open spec fn session_ids_unique(s: Seq<SessionRecord>) -> bool {
    forall|i: int, j: int|
        #![trigger s[i], s[j]]
        0 <= i < s.len() && 0 <= j < s.len() && i != j ==> s[i].session_id != s[j].session_id
}

/// Storing a session under its id, in place of the one with that id (`p`
/// its position) or appended (`p` the length, the id being new), keeps ids
/// unique.
proof fn lemma_sessions_store(s: Seq<SessionRecord>, r: SessionRecord, p: int)
    requires
        session_ids_unique(s),
        (0 <= p < s.len() && s[p].session_id == r.session_id) || (p == s.len() && forall|j: int|
            0 <= j < s.len() ==> #[trigger] s[j].session_id != r.session_id),
    ensures
        session_ids_unique(if p < s.len() { s.update(p, r) } else { s.push(r) }),
{
    let key = |x: SessionRecord| x.session_id;
    assert(keys_unique(s, key)) by {
        assert forall|i: int, j: int| 0 <= i < s.len() && 0 <= j < s.len() && i != j implies key(
            #[trigger] s[i],
        ) != key(#[trigger] s[j]) by {}
    }
    lemma_store_keeps_keys_unique(s, key, r, p);
    let t = if p < s.len() { s.update(p, r) } else { s.push(r) };
    assert forall|a: int, b: int| 0 <= a < t.len() && 0 <= b < t.len() && a != b implies #[trigger] t[a].session_id
        != #[trigger] t[b].session_id by {
        assert(key(t[a]) != key(t[b]));
    }
}

/// Whether some session has the given id.
pub open spec fn has_session(s: Seq<SessionRecord>, id: Seq<char>) -> bool {
    exists|i: int| 0 <= i < s.len() && #[trigger] s[i].session_id == id
}

/// The position of the session with the given id (meaningful where
/// `has_session`).
pub open spec fn position_of_session(s: Seq<SessionRecord>, id: Seq<char>) -> int {
    choose|i: int| 0 <= i < s.len() && #[trigger] s[i].session_id == id
}

/// The table after storing `r` under its id: a session with the same id is
/// replaced in place, otherwise `r` is appended.
pub open spec fn sessions_insert(s: Seq<SessionRecord>, r: SessionRecord) -> Seq<SessionRecord> {
    if has_session(s, r.session_id) {
        s.update(position_of_session(s, r.session_id), r)
    } else {
        s.push(r)
    }
}

/// Sessions that move data (shared memory or network).
pub open spec fn is_upload_mode() -> spec_fn(SessionRecord) -> bool {
    |r: SessionRecord| r.mode == TransportMode::SharedMemory || r.mode == TransportMode::Network
}

/// Sessions that use shared memory.
pub open spec fn is_shared_memory() -> spec_fn(SessionRecord) -> bool {
    |r: SessionRecord| r.mode == TransportMode::SharedMemory
}

/// The bytes transferred over all sessions.
pub open spec fn bytes_moved(s: Seq<SessionRecord>) -> int
    decreases s.len(),
{
    if s.len() == 0 {
        0
    } else {
        bytes_moved(s.drop_last()) + s.last().transferred_bytes
    }
}

/// A prefix never moved more bytes than the whole table.
pub proof fn lemma_bytes_moved_prefix(s: Seq<SessionRecord>, i: int)
    requires
        0 <= i <= s.len(),
    ensures
        0 <= bytes_moved(s.take(i)) <= bytes_moved(s),
    decreases s.len() - i,
{
    if i < s.len() {
        lemma_bytes_moved_prefix(s, i + 1);
        assert(s.take(i + 1).drop_last() =~= s.take(i));
    } else {
        assert(s.take(i) =~= s);
    }
    lemma_bytes_moved_nonneg(s.take(i));
}

/// Moved bytes are never negative.
pub proof fn lemma_bytes_moved_nonneg(s: Seq<SessionRecord>)
    ensures
        bytes_moved(s) >= 0,
    decreases s.len(),
{
    if s.len() > 0 {
        lemma_bytes_moved_nonneg(s.drop_last());
    }
}

/// Counters over the transfer-session table.
#[derive(Clone, Copy, Debug, Default)]
pub struct TransferStats {
    pub total_sessions: u64,
    pub active_uploads: u64,
    pub active_downloads: u64,
    pub bytes_transferred: u64,
    /// Sessions that use shared memory; their share of `total_sessions` is the
    /// zero-copy ratio.
    pub shared_memory_sessions: u64,
}

/// The table of transfer sessions, keyed by session id.
pub struct SessionTable {
    entries: Vec<TransferSession>,
}

impl View for SessionTable {
    type V = Seq<SessionRecord>;

    closed spec fn view(&self) -> Seq<SessionRecord> {
        self.entries@.map_values(|t: TransferSession| t@)
    }
}

impl SessionTable {
    /// No two sessions share an id.
    pub open spec fn wf(&self) -> bool {
        session_ids_unique(self@)
    }

    /// An empty table.
    pub fn new() -> (t: Self)
        ensures
            t@ == Seq::<SessionRecord>::empty(),
            t.wf(),
    {
        let t = SessionTable { entries: Vec::new() };
        assert(t@ =~= Seq::<SessionRecord>::empty());
        t
    }

    /// Stores a session under its id, replacing one with the same id.
    pub fn insert(&mut self, session: TransferSession)
        requires
            old(self).wf(),
        ensures
            final(self).wf(),
            final(self)@ == sessions_insert(old(self)@, session@),
    {
        let ghost r = session@;
        let mut i: usize = 0;
        while i < self.entries.len()
            invariant
                i <= self.entries@.len(),
                self@ == old(self)@,
                self.entries == old(self).entries,
                session@ == r,
                session_ids_unique(old(self)@),
                forall|j: int| 0 <= j < i ==> #[trigger] self@[j].session_id != r.session_id,
            decreases self.entries@.len() - i,
        {
            assert(self@[i as int] == self.entries@[i as int]@);
            if crate::text::same_text(self.entries[i].session_id.as_str(), session.session_id.as_str()) {
                self.entries.set(i, session);
                let ghost s = old(self)@;
                assert(self@ =~= s.update(i as int, r));
                assert(s[i as int].session_id == r.session_id);
                assert(has_session(s, r.session_id));
                let ghost p = position_of_session(s, r.session_id);
                assert(p == i as int) by {
                    if p != i as int {
                        assert(s[p].session_id == s[i as int].session_id);
                    }
                }
                proof {
                    lemma_sessions_store(s, r, i as int);
                }
                return;
            }
            i = i + 1;
        }
        self.entries.push(session);
        let ghost s = old(self)@;
        assert(self@ =~= s.push(r));
        proof {
            lemma_sessions_store(s, r, s.len() as int);
        }
    }

    /// Whether the bytes moved by all sessions add up to at most `u64::MAX`.
    pub fn bytes_fit(&self) -> (b: bool)
        ensures
            b == (bytes_moved(self@) <= u64::MAX),
    {
        let ghost s = self@;
        let n = self.entries.len();
        let mut acc: u64 = 0;
        let mut i: usize = 0;
        while i < n
            invariant
                n == s.len(),
                s == self@,
                i <= n,
                acc == bytes_moved(s.take(i as int)),
            decreases n - i,
        {
            assert(s.take(i + 1).drop_last() =~= s.take(i as int));
            assert(s.take(i + 1).last() == s[i as int]);
            assert(self.entries@[i as int]@ == s[i as int]);
            proof {
                lemma_bytes_moved_prefix(s, i + 1);
            }
            match acc.checked_add(self.entries[i].transferred_bytes) {
                Some(v) => acc = v,
                None => {
                    return false;
                },
            }
            i = i + 1;
        }
        assert(s.take(n as int) =~= s);
        true
    }

    /// Counts the sessions: all of them, those that move data, those on
    /// shared memory, and the bytes moved in total.
    pub fn stats(&self) -> (st: TransferStats)
        requires
            bytes_moved(self@) <= u64::MAX,
        ensures
            st.total_sessions == self@.len(),
            st.active_uploads == self@.filter(is_upload_mode()).len(),
            st.active_downloads == 0,
            st.bytes_transferred == bytes_moved(self@),
            st.shared_memory_sessions == self@.filter(is_shared_memory()).len(),
    {
        let ghost s = self@;
        let ghost up = is_upload_mode();
        let ghost shm = is_shared_memory();
        let n = self.entries.len();
        let mut uploads: u64 = 0;
        let mut shared: u64 = 0;
        let mut bytes: u64 = 0;
        let mut i: usize = 0;
        while i < n
            invariant
                n == s.len(),
                s == self@,
                up == is_upload_mode(),
                shm == is_shared_memory(),
                bytes_moved(s) <= u64::MAX,
                i <= n,
                uploads == s.take(i as int).filter(up).len(),
                shared == s.take(i as int).filter(shm).len(),
                bytes == bytes_moved(s.take(i as int)),
                uploads <= i,
                shared <= i,
            decreases n - i,
        {
            let ghost t = s.take(i as int);
            assert(s.take(i + 1) =~= t.push(s[i as int]));
            assert(s.take(i + 1).drop_last() =~= t);
            proof {
                t.lemma_filter_push(s[i as int], up);
                t.lemma_filter_push(s[i as int], shm);
                lemma_bytes_moved_prefix(s, i + 1);
            }
            let e = &self.entries[i];
            assert(e@ == s[i as int]);
            match e.mode {
                TransportMode::SharedMemory => {
                    uploads = uploads + 1;
                    shared = shared + 1;
                },
                TransportMode::Network => {
                    uploads = uploads + 1;
                },
                TransportMode::Auto => {},
            }
            bytes = bytes + e.transferred_bytes;
            i = i + 1;
        }
        assert(s.take(n as int) =~= s);
        TransferStats {
            total_sessions: n as u64,
            active_uploads: uploads,
            active_downloads: 0,
            bytes_transferred: bytes,
            shared_memory_sessions: shared,
        }
    }
}

} // verus!
