use vstd::prelude::*;
use vstd::utf8::*;

use crate::text::{contains, occurs_in};

verus! {

/// How a socket read failed, as far as the decisions below tell failures apart.
#[derive(PartialEq, Eq, Structural, Clone, Copy, Debug)]
pub enum ReadErrorKind {
    ConnectionAborted,
    ConnectionRefused,
    UnexpectedEof,
    Other,
}

/// The result of one read into a buffer: the number of bytes read, or the
/// failure with its kind and the text that describes it.
pub enum ReadResult {
    Read(usize),
    Failed { kind: ReadErrorKind, text: String },
}

/// The mathematical value of a [`ReadResult`].
pub enum ReadResultView {
    Read(usize),
    Failed(ReadErrorKind, Seq<char>),
}

impl View for ReadResult {
    type V = ReadResultView;

    open spec fn view(&self) -> ReadResultView {
        match self {
            ReadResult::Read(n) => ReadResultView::Read(*n),
            ReadResult::Failed { kind, text } => ReadResultView::Failed(*kind, text@),
        }
    }
}

/// Why a connection is given up.
#[derive(PartialEq, Eq, Structural, Clone, Copy, Debug)]
pub enum StopReason {
    ClosedByPeer,
    Aborted,
    Refused,
    UnexpectedEof,
    ForciblyClosed,
}

/// The wait, in milliseconds, before reading again after a failure that does
/// not end the connection.
pub const READ_RETRY_DELAY_MS: u64 = 500;

/// The text by which the system reports a connection that the remote host
/// closed forcibly.
pub open spec fn forced_close_text() -> Seq<char> {
    "An existing connection was forcibly closed by the remote host"@
}

/// Whether a failed read ends the connection, and why: an aborted or refused
/// connection and an unexpected end of file do; any other failure does when
/// its text contains [`forced_close_text`], else it is passed over.
pub open spec fn failure_stop(kind: ReadErrorKind, text: Seq<char>) -> Option<StopReason> {
    match kind {
        ReadErrorKind::ConnectionAborted => Some(StopReason::Aborted),
        ReadErrorKind::ConnectionRefused => Some(StopReason::Refused),
        ReadErrorKind::UnexpectedEof => Some(StopReason::UnexpectedEof),
        ReadErrorKind::Other => if occurs_in(encode_utf8(text), encode_utf8(forced_close_text())) {
            Some(StopReason::ForciblyClosed)
        } else {
            None
        },
    }
}

/// Decides, for a failed read, whether the connection ends ([`failure_stop`]).
pub fn classify_failure(kind: ReadErrorKind, text: &str) -> (res: Option<StopReason>)
    ensures
        res == failure_stop(kind, text@),
{
    match kind {
        ReadErrorKind::ConnectionAborted => Some(StopReason::Aborted),
        ReadErrorKind::ConnectionRefused => Some(StopReason::Refused),
        ReadErrorKind::UnexpectedEof => Some(StopReason::UnexpectedEof),
        ReadErrorKind::Other => {
            let pattern = "An existing connection was forcibly closed by the remote host";
            if contains(text.as_bytes(), pattern.as_bytes()) {
                Some(StopReason::ForciblyClosed)
            } else {
                None
            }
        },
    }
}

/// The bytes of `buf` that a read of `n` bytes filled: its first `n` bytes,
/// or all of it where `n` exceeds its length.
pub open spec fn filled(buf: Seq<u8>, n: usize) -> Seq<u8> {
    if n <= buf.len() {
        buf.subrange(0, n as int)
    } else {
        buf
    }
}

/// Cuts `buf` down to the bytes that a read of `n` bytes filled
/// (`Vec::truncate`, which leaves the buffer whole where `n` exceeds it).
fn keep_filled(buf: Vec<u8>, n: usize) -> (res: Vec<u8>)
    ensures
        res@ == filled(buf@, n),
{
    let mut buf = buf;
    buf.truncate(n);
    buf
}

/// What the client does after one read from the server.
pub enum ClientRead {
    /// Hand the bytes that were read to the user.
    Deliver(Vec<u8>),
    /// Stop reading: the connection is over.
    Stop(StopReason),
    /// Wait this many milliseconds, then read again.
    RetryAfterMs(u64),
}

/// The mathematical value of a [`ClientRead`].
pub enum ClientReadView {
    Deliver(Seq<u8>),
    Stop(StopReason),
    RetryAfterMs(u64),
}

impl View for ClientRead {
    type V = ClientReadView;

    open spec fn view(&self) -> ClientReadView {
        match self {
            ClientRead::Deliver(b) => ClientReadView::Deliver(b@),
            ClientRead::Stop(r) => ClientReadView::Stop(*r),
            ClientRead::RetryAfterMs(ms) => ClientReadView::RetryAfterMs(*ms),
        }
    }
}

/// The client's decision after a read into `buf`: a read of no bytes means
/// the server closed the connection; a read of `n` bytes delivers what was
/// filled; a failure stops as [`failure_stop`] says, or is retried after
/// [`READ_RETRY_DELAY_MS`].
pub open spec fn client_read_decision(result: ReadResultView, buf: Seq<u8>) -> ClientReadView {
    match result {
        ReadResultView::Read(n) => if n == 0 {
            ClientReadView::Stop(StopReason::ClosedByPeer)
        } else {
            ClientReadView::Deliver(filled(buf, n))
        },
        ReadResultView::Failed(kind, text) => match failure_stop(kind, text) {
            Some(r) => ClientReadView::Stop(r),
            None => ClientReadView::RetryAfterMs(READ_RETRY_DELAY_MS),
        },
    }
}

/// Decides what the client does after reading from the server into `buf`.
pub fn client_read_step(result: ReadResult, buf: Vec<u8>) -> (res: ClientRead)
    ensures
        res@ == client_read_decision(result@, buf@),
{
    match result {
        ReadResult::Read(n) => {
            if n == 0 {
                ClientRead::Stop(StopReason::ClosedByPeer)
            } else {
                ClientRead::Deliver(keep_filled(buf, n))
            }
        },
        ReadResult::Failed { kind, text } => match classify_failure(kind, text.as_str()) {
            Some(r) => ClientRead::Stop(r),
            None => ClientRead::RetryAfterMs(READ_RETRY_DELAY_MS),
        },
    }
}

/// Whether and when the server tells the dispatcher, as it closes a
/// connection, that the client is gone (by an empty message from the client's
/// address):
/// - `Never`: not at all;
/// - `IfUnlisted`: after removing the connection from the table of open
///   connections, and only when the table did not list it;
/// - `Always`: before removing it from the table.
#[derive(PartialEq, Eq, Structural, Clone, Copy, Debug)]
pub enum CloseNotice {
    Never,
    IfUnlisted,
    Always,
}

/// Whether the dispatcher is told that the client is gone before the
/// connection is removed from the table: only for `Always`.
pub open spec fn notice_before_removal(notice: CloseNotice) -> bool {
    notice == CloseNotice::Always
}

/// Whether the dispatcher is told that the client is gone after the
/// connection is removed from the table, given whether the table listed it:
/// only for `IfUnlisted`, and only when it was not listed.
pub open spec fn notice_after_removal(notice: CloseNotice, was_listed: bool) -> bool {
    notice == CloseNotice::IfUnlisted && !was_listed
}

/// Decides whether the notice goes out before the removal ([`notice_before_removal`]).
pub fn notifies_before_removal(notice: CloseNotice) -> (res: bool)
    ensures
        res == notice_before_removal(notice),
{
    match notice {
        CloseNotice::Always => true,
        _ => false,
    }
}

/// Decides whether the notice goes out after the removal ([`notice_after_removal`]).
pub fn notifies_after_removal(notice: CloseNotice, was_listed: bool) -> (res: bool)
    ensures
        res == notice_after_removal(notice, was_listed),
{
    match notice {
        CloseNotice::IfUnlisted => !was_listed,
        _ => false,
    }
}

/// Law: closing a connection tells the dispatcher at most once that the
/// client is gone; `Never` never does, `Always` always does, `IfUnlisted` does
/// exactly when the table did not list the connection.
pub proof fn law_at_most_one_notice(notice: CloseNotice, was_listed: bool)
    ensures
        notice_before_removal(notice) <==> notice == CloseNotice::Always,
        notice_after_removal(notice, was_listed) <==> (notice == CloseNotice::IfUnlisted && !was_listed),
        !(notice_before_removal(notice) && notice_after_removal(notice, was_listed)),
        notice == CloseNotice::Never ==> !notice_before_removal(notice) && !notice_after_removal(notice, was_listed),
        notice == CloseNotice::Always ==> notice_before_removal(notice),
        notice == CloseNotice::IfUnlisted ==> (notice_after_removal(notice, was_listed) <==> !was_listed),
{
}

/// What the server does after one read from a client's connection.
pub enum ServerRead {
    /// Pass these bytes on to the dispatcher, with the client's address.
    Forward(Vec<u8>),
    /// Stop reading and close the connection, with the given notice.
    Close { reason: StopReason, notice: CloseNotice },
    /// Wait this many milliseconds, then read again.
    RetryAfterMs(u64),
}

/// The mathematical value of a [`ServerRead`].
pub enum ServerReadView {
    Forward(Seq<u8>),
    Close(StopReason, CloseNotice),
    RetryAfterMs(u64),
}

impl View for ServerRead {
    type V = ServerReadView;

    open spec fn view(&self) -> ServerReadView {
        match self {
            ServerRead::Forward(b) => ServerReadView::Forward(b@),
            ServerRead::Close { reason, notice } => ServerReadView::Close(*reason, *notice),
            ServerRead::RetryAfterMs(ms) => ServerReadView::RetryAfterMs(*ms),
        }
    }
}

/// The server's decision after a read into `buf` from a client.
///
/// A read of no bytes closes the connection without notice. Where messages are
/// routed by address (`addressed`), a read of `n` bytes forwards what was
/// filled; an aborted or refused connection or an unexpected end of file closes
/// it, with a notice if the table did not list it; a forcibly closed one closes
/// it with a notice in every case; any other failure is retried after
/// [`READ_RETRY_DELAY_MS`]. Otherwise a read forwards the whole buffer and a
/// failure is retried at once.
pub open spec fn server_read_decision(addressed: bool, result: ReadResultView, buf: Seq<u8>) -> ServerReadView {
    match result {
        ReadResultView::Read(n) => if n == 0 {
            ServerReadView::Close(StopReason::ClosedByPeer, CloseNotice::Never)
        } else if addressed {
            ServerReadView::Forward(filled(buf, n))
        } else {
            ServerReadView::Forward(buf)
        },
        ReadResultView::Failed(kind, text) => if addressed {
            match failure_stop(kind, text) {
                Some(StopReason::ForciblyClosed) => ServerReadView::Close(StopReason::ForciblyClosed, CloseNotice::Always),
                Some(r) => ServerReadView::Close(r, CloseNotice::IfUnlisted),
                None => ServerReadView::RetryAfterMs(READ_RETRY_DELAY_MS),
            }
        } else {
            ServerReadView::RetryAfterMs(0)
        },
    }
}

/// Decides what the server does after reading from a client into `buf`.
pub fn server_read_step(addressed: bool, result: ReadResult, buf: Vec<u8>) -> (res: ServerRead)
    ensures
        res@ == server_read_decision(addressed, result@, buf@),
{
    match result {
        ReadResult::Read(n) => {
            if n == 0 {
                ServerRead::Close { reason: StopReason::ClosedByPeer, notice: CloseNotice::Never }
            } else if addressed {
                ServerRead::Forward(keep_filled(buf, n))
            } else {
                ServerRead::Forward(buf)
            }
        },
        ReadResult::Failed { kind, text } => {
            if addressed {
                match classify_failure(kind, text.as_str()) {
                    Some(StopReason::ForciblyClosed) => ServerRead::Close {
                        reason: StopReason::ForciblyClosed,
                        notice: CloseNotice::Always,
                    },
                    Some(r) => ServerRead::Close { reason: r, notice: CloseNotice::IfUnlisted },
                    None => ServerRead::RetryAfterMs(READ_RETRY_DELAY_MS),
                }
            } else {
                ServerRead::RetryAfterMs(0)
            }
        },
    }
}

/// Law: how a failed read is classified. An aborted or refused connection and
/// an unexpected end of file end the connection, each with its own reason;
/// any other failure ends it, as forcibly closed, exactly when the UTF-8
/// bytes of its text contain those of "An existing connection was forcibly
/// closed by the remote host", and is otherwise passed over.
pub proof fn law_failure_classification(kind: ReadErrorKind, text: Seq<char>)
    ensures
        kind == ReadErrorKind::ConnectionAborted ==> failure_stop(kind, text) == Some(StopReason::Aborted),
        kind == ReadErrorKind::ConnectionRefused ==> failure_stop(kind, text) == Some(StopReason::Refused),
        kind == ReadErrorKind::UnexpectedEof ==> failure_stop(kind, text) == Some(StopReason::UnexpectedEof),
        kind == ReadErrorKind::Other ==> (failure_stop(kind, text) == Some(StopReason::ForciblyClosed)
            <==> exists|i: int|
            0 <= i && i + encode_utf8(
                "An existing connection was forcibly closed by the remote host"@,
            ).len() <= encode_utf8(text).len() && #[trigger] encode_utf8(text).subrange(
                i,
                i + encode_utf8("An existing connection was forcibly closed by the remote host"@).len(),
            ) == encode_utf8("An existing connection was forcibly closed by the remote host"@)),
        kind == ReadErrorKind::Other ==> (failure_stop(kind, text) is None || failure_stop(kind, text)
            == Some(StopReason::ForciblyClosed)),
{
}

/// Law: what the client does after a read of `n` bytes into `buf`: with no
/// bytes it stops, the server having closed the connection; with `n` bytes,
/// `n` no more than the buffer's length, it delivers exactly the first `n`
/// bytes of the buffer; a failed read stops it when the failure ends the
/// connection and is otherwise retried after 500 milliseconds.
pub proof fn law_client_read(n: usize, buf: Seq<u8>, kind: ReadErrorKind, text: Seq<char>)
    ensures
        client_read_decision(ReadResultView::Read(0), buf) == ClientReadView::Stop(StopReason::ClosedByPeer),
        0 < n <= buf.len() ==> client_read_decision(ReadResultView::Read(n), buf)
            == ClientReadView::Deliver(buf.subrange(0, n as int)),
        0 < n <= buf.len() ==> buf.subrange(0, n as int).len() == n,
        buf.len() < n ==> client_read_decision(ReadResultView::Read(n), buf) == ClientReadView::Deliver(buf),
        failure_stop(kind, text) is Some ==> client_read_decision(ReadResultView::Failed(kind, text), buf)
            == ClientReadView::Stop(failure_stop(kind, text).unwrap()),
        failure_stop(kind, text) is None ==> client_read_decision(ReadResultView::Failed(kind, text), buf)
            == ClientReadView::RetryAfterMs(500),
{
}

/// Law: what the server does after a read of `n` bytes from a client into
/// `buf`. With no bytes it closes the connection without telling the
/// dispatcher. Where messages are routed by address, a read of `n` bytes, `n`
/// no more than the buffer's length, forwards exactly the first `n` bytes of
/// the buffer; an aborted or refused connection or an unexpected end of file
/// closes it, telling the dispatcher only if the connection was not listed; a
/// forcibly closed one closes it and always tells; other failures are retried
/// after 500 milliseconds. Otherwise every read forwards the whole buffer and
/// every failure is retried at once.
pub proof fn law_server_read(n: usize, buf: Seq<u8>, kind: ReadErrorKind, text: Seq<char>)
    ensures
        server_read_decision(true, ReadResultView::Read(0), buf) == ServerReadView::Close(
            StopReason::ClosedByPeer,
            CloseNotice::Never,
        ),
        server_read_decision(false, ReadResultView::Read(0), buf) == ServerReadView::Close(
            StopReason::ClosedByPeer,
            CloseNotice::Never,
        ),
        0 < n <= buf.len() ==> server_read_decision(true, ReadResultView::Read(n), buf)
            == ServerReadView::Forward(buf.subrange(0, n as int)),
        0 < n <= buf.len() ==> buf.subrange(0, n as int).len() == n,
        buf.len() < n ==> server_read_decision(true, ReadResultView::Read(n), buf) == ServerReadView::Forward(buf),
        0 < n ==> server_read_decision(false, ReadResultView::Read(n), buf) == ServerReadView::Forward(buf),
        failure_stop(kind, text) == Some(StopReason::ForciblyClosed) ==> server_read_decision(
            true,
            ReadResultView::Failed(kind, text),
            buf,
        ) == ServerReadView::Close(StopReason::ForciblyClosed, CloseNotice::Always),
        failure_stop(kind, text) is Some && failure_stop(kind, text) != Some(StopReason::ForciblyClosed)
            ==> server_read_decision(true, ReadResultView::Failed(kind, text), buf) == ServerReadView::Close(
            failure_stop(kind, text).unwrap(),
            CloseNotice::IfUnlisted,
        ),
        failure_stop(kind, text) is None ==> server_read_decision(true, ReadResultView::Failed(kind, text), buf)
            == ServerReadView::RetryAfterMs(500),
        server_read_decision(false, ReadResultView::Failed(kind, text), buf) == ServerReadView::RetryAfterMs(0),
{
}

} // verus!
