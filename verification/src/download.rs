//! Download streaming: the messages a download sends, and the chunking of the
//! file data into pieces that reassemble to the requested byte range.

use vstd::prelude::*;
use vstd::slice::{slice_subrange, slice_to_vec};
use crate::model::{FileInfo, FileRecord};
use crate::text::join2;

verus! {

/// A download request: the file by id (or, if the id is empty, by path) and
/// the byte range wanted (`length <= 0` means up to the end).
#[derive(Debug)]
pub struct DownloadFileRequest {
    pub file_id: String,
    pub path: String,
    pub offset: i64,
    pub length: i64,
}

/// The payload of a download message.
#[derive(Debug)]
pub enum DownloadData {
    FileInfo(FileInfo),
    Chunk(Vec<u8>),
}

/// One message of a download stream.
#[derive(Debug)]
pub struct DownloadFileResponse {
    pub data: Option<DownloadData>,
    pub offset: i64,
    pub total_size: i64,
}

/// The mathematical value of a message payload.
pub enum PayloadView {
    Info(FileRecord),
    Bytes(Seq<u8>),
    Missing,
}

/// The mathematical value of a download message.
pub struct MessageView {
    pub payload: PayloadView,
    pub offset: i64,
    pub total_size: i64,
}

impl View for DownloadFileResponse {
    type V = MessageView;

    open spec fn view(&self) -> MessageView {
        MessageView {
            payload: match self.data {
                Some(DownloadData::FileInfo(f)) => PayloadView::Info(f@),
                Some(DownloadData::Chunk(b)) => PayloadView::Bytes(b@),
                None => PayloadView::Missing,
            },
            offset: self.offset,
            total_size: self.total_size,
        }
    }
}

/// Files larger than this (1 MiB) are announced through the data portal.
pub const PORTAL_THRESHOLD: i64 = 1048576;

/// The chunk size for a file of the given size: 256 KiB when the portal
/// carries the bulk of the data, else 1 MiB below 5 MiB, 4 MiB below 50 MiB,
/// and 8 MiB from there on.
pub open spec fn chunk_size_for(size: i64) -> usize {
    if size > PORTAL_THRESHOLD {
        262144
    } else if size < 5242880 {
        1048576
    } else if size < 52428800 {
        4194304
    } else {
        8388608
    }
}

/// Chooses the chunk size for a file of the given size.
pub fn chunk_size(size: i64) -> (c: usize)
    ensures
        c == chunk_size_for(size),
        c > 0,
{
    if size > PORTAL_THRESHOLD {
        262144
    } else if size < 5242880 {
        1048576
    } else if size < 52428800 {
        4194304
    } else {
        8388608
    }
}

/// A piece of file data: where it starts and its bytes.
pub struct Piece {
    pub offset: int,
    pub bytes: Seq<u8>,
}

/// The pieces that cover `data[pos..stop]`, each at most `size` bytes long,
/// in order.
pub open spec fn pieces(data: Seq<u8>, pos: int, stop: int, size: int) -> Seq<Piece>
    decreases stop - pos,
{
    if pos >= stop || size <= 0 {
        Seq::empty()
    } else if pos + size >= stop {
        seq![Piece { offset: pos, bytes: data.subrange(pos, stop) }]
    } else {
        seq![Piece { offset: pos, bytes: data.subrange(pos, pos + size) }] + pieces(
            data,
            pos + size,
            stop,
            size,
        )
    }
}

/// The bytes of a sequence of pieces, one after another.
pub open spec fn joined(ps: Seq<Piece>) -> Seq<u8>
    decreases ps.len(),
{
    if ps.len() == 0 {
        Seq::empty()
    } else {
        ps[0].bytes + joined(ps.drop_first())
    }
}

/// Where the requested range starts: the offset taken as an index (a
/// negative offset wraps to an index past any data).
pub open spec fn range_start(offset: i64) -> int {
    (offset as usize) as int
}

/// Where the requested range ends: `offset + length` capped at the file size
/// when a positive length is given, else the file size.
pub open spec fn range_end(offset: i64, length: i64, total: i64) -> int {
    if length > 0 {
        let e = if offset + length < total { offset + length } else { total as int };
        ((e as i64) as usize) as int
    } else {
        (total as usize) as int
    }
}

/// The smaller of two integers.
pub open spec fn min_int(a: int, b: int) -> int {
    if a < b { a } else { b }
}

/// The data stream of a download: the pieces of the requested range that the
/// data actually holds.
pub open spec fn data_pieces(data: Seq<u8>, offset: i64, length: i64, total: i64) -> Seq<Piece> {
    pieces(
        data,
        range_start(offset),
        min_int(range_end(offset, length, total), data.len() as int),
        chunk_size_for(total) as int,
    )
}

/// The message carrying one piece.
pub open spec fn piece_message(p: Piece, total: i64) -> MessageView {
    MessageView { payload: PayloadView::Bytes(p.bytes), offset: p.offset as i64, total_size: total }
}

/// The connection string of the portal for a download session.
pub open spec fn portal_link(session_id: Seq<char>) -> Seq<char> {
    "portal://shared_memory/"@ + session_id
}

/// The messages of a download, in order: the file information (offset 0);
/// for a file over 1 MiB, the portal connection string as bytes (offset -1);
/// then one message per piece of the requested range.
pub open spec fn download_stream(
    info: FileRecord,
    data: Seq<u8>,
    session_id: Seq<char>,
    offset: i64,
    length: i64,
) -> Seq<MessageView> {
    let total = info.size;
    let header = seq![MessageView { payload: PayloadView::Info(info), offset: 0, total_size: total }];
    let portal = if total > PORTAL_THRESHOLD {
        seq![
            MessageView {
                payload: PayloadView::Bytes(vstd::utf8::encode_utf8(portal_link(session_id))),
                offset: -1i64,
                total_size: total,
            },
        ]
    } else {
        Seq::empty()
    };
    header + portal + data_pieces(data, offset, length, total).map_values(
        |p: Piece| piece_message(p, total),
    )
}

/// The stand-in content of a file whose data cannot be read: `size` bytes of
/// 0xAA.
pub open spec fn filler(size: nat) -> Seq<u8> {
    Seq::new(size, |i: int| 0xAAu8)
}

/// The data a download streams: what was read, or the stand-in content.
pub open spec fn streamed_data(info: FileRecord, data: Option<Vec<u8>>) -> Seq<u8> {
    match data {
        Some(d) => d@,
        None => filler((info.size as usize) as nat),
    }
}

/// Builds `size` bytes of 0xAA.
pub fn filler_bytes(size: usize) -> (v: Vec<u8>)
    ensures
        v@ == filler(size as nat),
{
    let mut v: Vec<u8> = Vec::new();
    let mut i: usize = 0;
    while i < size
        invariant
            i <= size,
            v@ =~= filler(i as nat),
        decreases size - i,
    {
        v.push(0xAA);
        i = i + 1;
    }
    v
}

/// Pieces are consecutive and together hold exactly `data[pos..stop]`.
pub proof fn lemma_pieces_reassemble(data: Seq<u8>, pos: int, stop: int, size: int)
    requires
        0 <= pos,
        stop <= data.len(),
        size > 0,
    ensures
        pos <= stop ==> joined(pieces(data, pos, stop, size)) == data.subrange(pos, stop),
        pos > stop ==> pieces(data, pos, stop, size).len() == 0,
        forall|k: int|
            0 <= k < pieces(data, pos, stop, size).len() ==> 0 < #[trigger] pieces(
                data,
                pos,
                stop,
                size,
            )[k].bytes.len() <= size,
    decreases stop - pos,
{
    let ps = pieces(data, pos, stop, size);
    if pos < stop && pos + size >= stop {
        assert(ps.drop_first() =~= Seq::<Piece>::empty());
        assert(joined(ps.drop_first()) =~= Seq::<u8>::empty());
        assert(joined(ps) =~= data.subrange(pos, stop));
    } else if pos < stop {
        lemma_pieces_reassemble(data, pos + size, stop, size);
        let rest = pieces(data, pos + size, stop, size);
        assert(ps.drop_first() =~= rest);
        assert(data.subrange(pos, stop) =~= data.subrange(pos, pos + size) + data.subrange(
            pos + size,
            stop,
        ));
        assert forall|k: int| 0 <= k < ps.len() implies 0 < #[trigger] ps[k].bytes.len()
            <= size by {
            if k > 0 {
                assert(ps[k] == rest[k - 1]);
            }
        }
    } else {
        assert(ps.len() == 0);
        if pos == stop {
            assert(data.subrange(pos, stop) =~= Seq::<u8>::empty());
        }
    }
}

/// The first message of a download: the file information, at offset 0.
pub fn download_header(info: &FileInfo) -> (m: DownloadFileResponse)
    ensures
        m@ == (MessageView { payload: PayloadView::Info(info@), offset: 0, total_size: info@.size }),
{
    DownloadFileResponse {
        data: Some(DownloadData::FileInfo(info.duplicate())),
        offset: 0,
        total_size: info.size,
    }
}

/// Builds the messages of a download of `info` whose data was read as `data`
/// (`None` where it could not be read), for the portal session `session_id`
/// and the requested byte range.
pub fn download_messages(
    info: &FileInfo,
    data: Option<Vec<u8>>,
    session_id: &str,
    offset: i64,
    length: i64,
) -> (msgs: Vec<DownloadFileResponse>)
    requires
        data is None ==> info@.size >= 0,
        length > 0 ==> i64::MIN <= offset + length <= i64::MAX,
    ensures
        msgs@.map_values(|m: DownloadFileResponse| m@) == download_stream(
            info@,
            streamed_data(info@, data),
            session_id@,
            offset,
            length,
        ),
{
    let total_size = info.size;
    let file_data = match data {
        Some(d) => d,
        None => filler_bytes(total_size as usize),
    };
    let ghost fd = file_data@;
    assert(fd == streamed_data(info@, data));
    let mut msgs: Vec<DownloadFileResponse> = Vec::new();
    msgs.push(download_header(info));
    let use_portal = total_size > PORTAL_THRESHOLD;
    if use_portal {
        let link = join2("portal://shared_memory/", session_id);
        msgs.push(
            DownloadFileResponse {
                data: Some(DownloadData::Chunk(link.as_str().as_bytes_vec())),
                offset: -1,
                total_size,
            },
        );
    }
    let ghost head = msgs@.map_values(|m: DownloadFileResponse| m@);
    let size = chunk_size(total_size);
    let mut pos = offset as usize;
    let end_offset: usize = if length > 0 {
        let e = if offset + length < total_size {
            offset + length
        } else {
            total_size
        };
        e as usize
    } else {
        total_size as usize
    };
    let n = file_data.len();
    let ghost stop = min_int(end_offset as int, n as int);
    let ghost all = pieces(fd, pos as int, stop, size as int);
    assert(all == data_pieces(fd, offset, length, total_size));
    while pos < end_offset && pos < n
        invariant
            n == fd.len(),
            fd == file_data@,
            size > 0,
            size == chunk_size_for(total_size),
            stop == min_int(end_offset as int, n as int),
            msgs@.map_values(|m: DownloadFileResponse| m@) + pieces(
                fd,
                pos as int,
                stop,
                size as int,
            ).map_values(|p: Piece| piece_message(p, total_size)) == head + all.map_values(
                |p: Piece| piece_message(p, total_size),
            ),
        decreases n - pos,
    {
        let remaining = end_offset - pos;
        let current = if size < remaining {
            size
        } else {
            remaining
        };
        let actual = if current < n - pos {
            current
        } else {
            n - pos
        };
        let chunk = slice_to_vec(slice_subrange(file_data.as_slice(), pos, pos + actual));
        let ghost ps = pieces(fd, pos as int, stop, size as int);
        let ghost rest = pieces(fd, pos + size, stop, size as int);
        assert(ps =~= seq![Piece { offset: pos as int, bytes: fd.subrange(pos as int, pos + actual) }] + rest);
        let ghost before = msgs@.map_values(|m: DownloadFileResponse| m@);
        msgs.push(
            DownloadFileResponse {
                data: Some(DownloadData::Chunk(chunk)),
                offset: pos as i64,
                total_size,
            },
        );
        assert(msgs@.map_values(|m: DownloadFileResponse| m@) =~= before.push(
            piece_message(ps[0], total_size),
        ));
        assert(ps.map_values(|p: Piece| piece_message(p, total_size)) =~= seq![
            piece_message(ps[0], total_size),
        ] + rest.map_values(|p: Piece| piece_message(p, total_size)));
        assert(pieces(fd, pos + actual, stop, size as int) == rest) by {
            if pos + actual >= stop {
                assert(pieces(fd, pos + actual, stop, size as int).len() == 0);
                assert(rest.len() == 0);
            }
        }
        pos = pos + actual;
        assert(msgs@.map_values(|m: DownloadFileResponse| m@) + rest.map_values(
            |p: Piece| piece_message(p, total_size),
        ) =~= before + ps.map_values(|p: Piece| piece_message(p, total_size)));
    }
    assert(pieces(fd, pos as int, stop, size as int).len() == 0);
    assert(pieces(fd, pos as int, stop, size as int).map_values(
        |p: Piece| piece_message(p, total_size),
    ) =~= Seq::<MessageView>::empty());
    assert(msgs@.map_values(|m: DownloadFileResponse| m@) =~= head + all.map_values(
        |p: Piece| piece_message(p, total_size),
    ));
    msgs
}

} // verus!
