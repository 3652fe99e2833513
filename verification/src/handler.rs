//! The per-connection handler's decisions.
//!
//! A handler owns one connection. Each loop iteration it checks the shared
//! running flag, attempts one read, and acts on what the read yielded:
//! reply to a decoded request, retry after a poll interval when nothing
//! was there, or close the connection. Everything except the I/O itself
//! is decided here: the surrounding thread performs one read, calls
//! [`handler_step`], carries out the action it returns, and repeats until
//! the action is to close.

use vstd::prelude::*;
use crate::codec::ClientRequest;
use crate::codec::ServerResponse;
use crate::codec::ReqModel;
use crate::codec::RespModel;
use crate::codec::parse_client;
use crate::codec::parse_server;
use crate::codec::enc_server;
use crate::codec::decode_client;
use crate::codec::encode_server;
use crate::codec::lemma_parse_server_of_encoding;

verus! {

/// What one non-blocking read of the connection yielded.
pub enum ReadEvent {
    /// Zero bytes were read: the peer closed its side.
    PeerClosed,
    /// One message's bytes arrived.
    Data(Vec<u8>),
    /// Nothing is there yet; not an error.
    WouldBlock,
    /// The read failed.
    Failed,
}

/// What the handler does before its next iteration.
pub enum HandlerAction {
    /// Write these bytes back, flush, and read again.
    Reply(Vec<u8>),
    /// Sleep one poll interval, then read again.
    RetryLater,
    /// Release the socket; the connection is over.
    Close,
}

/// The response a request is answered with: an echo returns its content
/// unchanged, an add returns the wrapping 32-bit sum of its operands.
pub open spec fn response_spec(m: ReqModel) -> RespModel {
    match m {
        ReqModel::Echo { content } => RespModel::Echo { content },
        ReqModel::Add { a, b } => RespModel::AddResult {
            result: vstd::wrapping::i32_specs::wrapping_add(a, b),
        },
    }
}

/// Dispatches a request to its response, exactly as `response_spec` says.
pub fn respond(req: ClientRequest) -> (resp: ServerResponse)
    ensures
        resp@ == response_spec(req@),
{
    match req {
        ClientRequest::Echo { content } => ServerResponse::Echo { content },
        ClientRequest::Add { a, b } => ServerResponse::AddResult { result: a.wrapping_add(b) },
    }
}

/// Decides one handler iteration.
///
/// Shutdown takes priority over pending I/O: a cleared running flag closes
/// the connection whatever the read yielded. Otherwise a closed peer or a
/// failed read closes it; a read that would block retries after one poll
/// interval; data either earns the encoded response to the request it
/// decodes as, or, when it is no envelope encoding, closes the connection.
pub fn handler_step(running: bool, ev: ReadEvent) -> (act: HandlerAction)
    ensures
        !running ==> act is Close,
        running && ev is PeerClosed ==> act is Close,
        running && ev is WouldBlock ==> act is RetryLater,
        running && ev is Failed ==> act is Close,
        running ==> (ev matches ReadEvent::Data(frame) ==> match parse_client(frame@) {
            Some(m) => act matches HandlerAction::Reply(out)
                && out@ == enc_server(response_spec(m)),
            None => act is Close,
        }),
{
    if !running {
        return HandlerAction::Close;
    }
    match ev {
        ReadEvent::PeerClosed => HandlerAction::Close,
        ReadEvent::WouldBlock => HandlerAction::RetryLater,
        ReadEvent::Failed => HandlerAction::Close,
        ReadEvent::Data(frame) => match decode_client(frame.as_slice()) {
            Ok(req) => {
                let resp = respond(req);
                HandlerAction::Reply(encode_server(&resp))
            },
            Err(_) => HandlerAction::Close,
        },
    }
}

/// The views of a sequence of byte buffers.
pub open spec fn frame_views(v: Seq<Vec<u8>>) -> Seq<Seq<u8>> {
    Seq::new(v.len(), |i: int| v[i]@)
}

/// The replies produced on one connection for a sequence of read frames:
/// one encoded response per decodable frame, in order, stopping at the
/// first frame that is no envelope encoding (the connection closes there).
pub open spec fn session_replies_spec(frames: Seq<Seq<u8>>) -> Seq<Seq<u8>>
    decreases frames.len(),
{
    if frames.len() == 0 {
        Seq::empty()
    } else {
        match parse_client(frames[0]) {
            None => Seq::empty(),
            Some(m) => seq![enc_server(response_spec(m))] + session_replies_spec(frames.skip(1)),
        }
    }
}

/// Replays a session: the replies a connection would send for these read
/// frames, exactly as `session_replies_spec` states them.
pub fn run_session(frames: &Vec<Vec<u8>>) -> (replies: Vec<Vec<u8>>)
    ensures
        frame_views(replies@) == session_replies_spec(frame_views(frames@)),
{
    let ghost all = frame_views(frames@);
    let mut replies: Vec<Vec<u8>> = Vec::new();
    let mut i: usize = 0;
    assert(frame_views(replies@) =~= Seq::<Seq<u8>>::empty());
    assert(all.skip(0) =~= all);
    assert(frame_views(replies@) + session_replies_spec(all) =~= session_replies_spec(all));
    while i < frames.len()
        invariant
            i <= frames@.len(),
            all == frame_views(frames@),
            session_replies_spec(all) == frame_views(replies@)
                + session_replies_spec(all.skip(i as int)),
        decreases frames@.len() - i,
    {
        assert(all.skip(i as int)[0] == all[i as int]);
        assert(all.skip(i as int).skip(1) =~= all.skip(i + 1));
        let ghost pre = replies@;
        match decode_client(frames[i].as_slice()) {
            Ok(req) => {
                let resp = respond(req);
                let out = encode_server(&resp);
                replies.push(out);
                proof {
                    assert(frame_views(replies@) =~= frame_views(pre).push(out@));
                    assert(frame_views(pre).push(out@) + session_replies_spec(all.skip(i + 1))
                        =~= frame_views(pre) + session_replies_spec(all.skip(i as int)));
                }
                i = i + 1;
            },
            Err(_) => {
                proof {
                    assert(frame_views(replies@) + Seq::<Seq<u8>>::empty()
                        =~= frame_views(replies@));
                }
                return replies;
            },
        }
    }
    proof {
        assert(all.skip(i as int) =~= Seq::<Seq<u8>>::empty());
        assert(frame_views(replies@) + Seq::<Seq<u8>>::empty() =~= frame_views(replies@));
    }
    replies
}

/// Echo identity: echoing leaves the content untouched, and the encoded
/// reply to an echo request decodes as an echo of the very content sent.
pub proof fn lemma_echo_identity(content: Seq<u8>)
    requires
        content.len() + 11 <= u64::MAX,
    ensures
        response_spec(ReqModel::Echo { content }) == (RespModel::Echo { content }),
        parse_server(enc_server(response_spec(ReqModel::Echo { content })))
            == Some(RespModel::Echo { content }),
{
    lemma_parse_server_of_encoding(RespModel::Echo { content });
}

/// Order preservation: when every frame of a session decodes, there is
/// exactly one reply per frame, and the reply at each position is the
/// encoded response to the request at that same position.
pub proof fn lemma_order_preservation(frames: Seq<Seq<u8>>)
    requires
        forall|j: int| 0 <= j < frames.len() ==> (parse_client(#[trigger] frames[j]) is Some),
    ensures
        session_replies_spec(frames).len() == frames.len(),
        forall|j: int| 0 <= j < frames.len() ==> (#[trigger] session_replies_spec(frames)[j]
            == enc_server(response_spec(parse_client(frames[j])->Some_0))),
    decreases frames.len(),
{
    if frames.len() > 0 {
        assert(forall|j: int| 0 <= j < frames.skip(1).len()
            ==> #[trigger] frames.skip(1)[j] == frames[j + 1]);
        lemma_order_preservation(frames.skip(1));
        assert forall|j: int| 0 <= j < frames.len() implies #[trigger] session_replies_spec(
            frames,
        )[j] == enc_server(response_spec(parse_client(frames[j])->Some_0)) by {
            if j > 0 {
                assert(session_replies_spec(frames)[j] == session_replies_spec(frames.skip(1))[j
                    - 1]);
            }
        }
    }
}

/// Connection independence: a connection's replies are a function of its
/// own frames alone. When two connections' sessions both decode fully and
/// they sent the same request at some position, they receive the same
/// reply there — whatever else either connection, or any third, sent.
pub proof fn lemma_connection_independence(mine: Seq<Seq<u8>>, other: Seq<Seq<u8>>, i: int)
    requires
        forall|j: int| 0 <= j < mine.len() ==> (parse_client(#[trigger] mine[j]) is Some),
        forall|j: int| 0 <= j < other.len() ==> (parse_client(#[trigger] other[j]) is Some),
        0 <= i < mine.len(),
        i < other.len(),
        mine[i] == other[i],
    ensures
        session_replies_spec(mine)[i] == session_replies_spec(other)[i],
{
    lemma_order_preservation(mine);
    lemma_order_preservation(other);
}

} // verus!
