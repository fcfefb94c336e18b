//! How a response is sent over HTTP/1.1, and bodies that are compressed on the way.

use crate::bytes::{bytes_of, part_bytes, part_bytes_all, push_bytes};
use crate::server::cgi_reader::{BodyPiece, PieceView};
use crate::server::fastcgi::{Progress, ProgressView, Relay};
use crate::server::fault::{early_end, fault, Fault, FaultKind, FaultView};
use crate::server::gzip::{
    encoder_read, encoder_source, given, is_fresh_reader, pull_read, pull_refilled, pull_source,
    read_encoder, Feed, FeedView, Pulled, PulledView, GZIP_HEADER,
};
use flate2::read::GzEncoder;
use crate::server::response::{
    chunk_on_wire, response_head, write_chunked, BodySource, HttpResponse, ResponseView, SourceView,
};
use vstd::prelude::*;
use vstd::utf8::encode_utf8;

verus! {

/// The most that is read from a file at once, or sent of it in one chunk.
pub const FILE_CHUNK: usize = 65536;

/// The most that is read at once of a file that is compressed.
pub const GZIP_INPUT: usize = 32768;

/// What is still to be sent.
#[derive(Debug, Clone, Copy, PartialEq, Eq, Structural)]
pub enum SendPhase {
    Nothing,
    /// The file, to its end.
    Whole,
    /// So many bytes of the file.
    Part(u64),
    /// The file, compressed and in chunks.
    Compressed,
}

/// A response that is being sent.
pub struct ResponseSender {
    phase: SendPhase,
    gzip: Option<GzipReader>,
}

#[verifier::ext_equal]
pub struct SenderView {
    pub phase: SendPhase,
    pub gzip: Option<GzipReaderView>,
}

impl View for ResponseSender {
    type V = SenderView;

    closed spec fn view(&self) -> SenderView {
        SenderView {
            phase: self.phase,
            gzip: match self.gzip {
                Some(g) => Some(g@),
                None => None,
            },
        }
    }
}

/// What is to be sent behind the head and a body that is in memory. `fresh` is the encoder
/// of a file that is compressed.
pub open spec fn sender_for(r: ResponseView, fresh: GzEncoder<Feed>) -> SenderView {
    match r.body_source {
        SourceView::Bytes(_) => SenderView { phase: SendPhase::Nothing, gzip: None },
        SourceView::File(_) => SenderView { phase: SendPhase::Whole, gzip: None },
        SourceView::FileRange(_, n) => SenderView {
            phase: if n == 0 {
                SendPhase::Nothing
            } else {
                SendPhase::Part(n)
            },
            gzip: None,
        },
        SourceView::GzipFile(_, _) => SenderView {
            phase: SendPhase::Compressed,
            gzip: Some(reader_of(fresh)),
        },
    }
}

/// The head, and the body where it is in memory.
pub open spec fn first_bytes(r: ResponseView) -> Seq<u8> {
    encode_utf8(response_head(r)) + (match r.body_source {
        SourceView::Bytes(b) => b,
        _ => Seq::empty(),
    })
}

/// What a piece of the file leads to; no bytes are its end.
#[verifier::ext_equal]
pub struct Sent {
    pub state: SenderView,
    pub output: Seq<u8>,
    pub progress: ProgressView,
}

pub open spec fn on_file(s: SenderView, data: Seq<u8>) -> Sent {
    match s.phase {
        SendPhase::Nothing => Sent {
            state: s,
            output: Seq::empty(),
            progress: ProgressView::Done,
        },
        SendPhase::Whole => if data.len() == 0 {
            Sent {
                state: SenderView { phase: SendPhase::Nothing, ..s },
                output: Seq::empty(),
                progress: ProgressView::Done,
            }
        } else {
            Sent { state: s, output: data, progress: ProgressView::More }
        },
        SendPhase::Part(left) => {
            let take = if data.len() <= left {
                data.len() as int
            } else {
                left as int
            };
            let rest = (left - take) as u64;
            if data.len() == 0 {
                Sent {
                    state: s,
                    output: Seq::empty(),
                    progress: ProgressView::Failed(
                        fault(
                            FaultKind::UnexpectedEof,
                            "file changed while streaming response"@,
                        ),
                    ),
                }
            } else if rest == 0 {
                Sent {
                    state: SenderView { phase: SendPhase::Nothing, ..s },
                    output: data.subrange(0, take),
                    progress: ProgressView::Done,
                }
            } else {
                Sent {
                    state: SenderView { phase: SendPhase::Part(rest), ..s },
                    output: data.subrange(0, take),
                    progress: ProgressView::More,
                }
            }
        },
        SendPhase::Compressed => Sent {
            state: SenderView {
                gzip: match s.gzip {
                    Some(g) => Some(fed(g, data)),
                    None => None,
                },
                ..s
            },
            output: Seq::empty(),
            progress: ProgressView::More,
        },
    }
}

/// What to do next for a response.
#[derive(Debug, PartialEq, Eq)]
pub enum SendStep {
    /// Read so many bytes of the file at the most and feed them.
    Read(usize),
    Send(Vec<u8>),
    Done,
    Failed(Fault),
}

#[verifier::ext_equal]
pub enum SendStepView {
    Read(usize),
    Send(Seq<u8>),
    Done,
    Failed(FaultView),
}

impl View for SendStep {
    type V = SendStepView;

    open spec fn view(&self) -> SendStepView {
        match self {
            SendStep::Read(n) => SendStepView::Read(*n),
            SendStep::Send(b) => SendStepView::Send(b@),
            SendStep::Done => SendStepView::Done,
            SendStep::Failed(f) => SendStepView::Failed(f@),
        }
    }
}

/// What to do next for a response, and the state after it. A compressed file is sent in a
/// chunk for each piece of the compressed form, and an empty chunk ends it.
pub open spec fn next_step(s: SenderView) -> (SendStepView, SenderView) {
    match (s.phase, s.gzip) {
        (SendPhase::Nothing, _) => (SendStepView::Done, s),
        (SendPhase::Whole, _) => (SendStepView::Read(FILE_CHUNK), s),
        (SendPhase::Part(left), _) => (
            SendStepView::Read(
                if left <= FILE_CHUNK {
                    left as usize
                } else {
                    FILE_CHUNK
                },
            ),
            s,
        ),
        (SendPhase::Compressed, None) => (SendStepView::Done, s),
        (SendPhase::Compressed, Some(g)) => {
            let (piece, after) = read_from(g, FILE_CHUNK as nat);
            match piece {
                Err(f) => (SendStepView::Failed(f), SenderView { gzip: Some(after), ..s }),
                Ok(PieceView::NeedMore) => (
                    SendStepView::Read(GZIP_INPUT),
                    SenderView { gzip: Some(after), ..s },
                ),
                Ok(PieceView::Bytes(b)) => (
                    SendStepView::Send(chunk_on_wire(b, true)),
                    SenderView { gzip: Some(after), ..s },
                ),
                Ok(PieceView::End) => (
                    SendStepView::Send(chunk_on_wire(Seq::empty(), true)),
                    SenderView { phase: SendPhase::Nothing, gzip: None },
                ),
            }
        },
    }
}

/// A range that was announced is sent in full or the exchange fails: it ends well
/// only when exactly that many bytes were sent.
pub proof fn law_announced_ranges_are_sent(s: SenderView, data: Seq<u8>)
    requires
        s.phase matches SendPhase::Part(left) && left > 0,
    ensures
        ({
            let r = on_file(s, data);
            let left = s.phase->Part_0;
            &&& r.progress is Done <==> data.len() >= left
            &&& r.progress is Done ==> r.output.len() == left
            &&& r.progress is More ==> r.state.phase == SendPhase::Part(
                (left - r.output.len()) as u64,
            )
            &&& data.len() == 0 ==> r.progress is Failed
        }),
{
}

impl ResponseSender {
    /// Begins to send a response: what is to be sent at once, and the rest.
    pub fn send_to(resp: &HttpResponse) -> (r: (Vec<u8>, Self))
        requires
            resp@.body_source matches SourceView::GzipFile(_, level) ==> level <= 10,
        ensures
            r.0@ == first_bytes(resp@),
            exists|fresh: GzEncoder<Feed>|
                r.1@ == #[trigger] sender_for(resp@, fresh) && (
                resp@.body_source matches SourceView::GzipFile(_, level) ==> is_fresh_reader(
                    fresh,
                    level,
                    nothing_came(),
                )),
    {
        let ghost any = vstd::pervasive::arbitrary::<GzEncoder<Feed>>();
        let head = resp.head_text();
        let mut out = bytes_of(head.as_str());
        match &resp.body_source {
            BodySource::Bytes(b) => {
                push_bytes(&mut out, b.as_slice());
                let s = ResponseSender { phase: SendPhase::Nothing, gzip: None };
                assert(s@ == sender_for(resp@, any));
                (out, s)
            },
            BodySource::File(_) => {
                assert(out@ + Seq::<u8>::empty() =~= out@);
                let s = ResponseSender { phase: SendPhase::Whole, gzip: None };
                assert(s@ == sender_for(resp@, any));
                (out, s)
            },
            BodySource::FileRange(_, n) => {
                assert(out@ + Seq::<u8>::empty() =~= out@);
                let phase = if *n == 0 {
                    SendPhase::Nothing
                } else {
                    SendPhase::Part(*n)
                };
                let s = ResponseSender { phase, gzip: None };
                assert(s@ == sender_for(resp@, any));
                (out, s)
            },
            BodySource::GzipFile(_, level) => {
                assert(out@ + Seq::<u8>::empty() =~= out@);
                let g = GzipReader::new(*level);
                let ghost fresh = choose|e: GzEncoder<Feed>|
                    g@ == #[trigger] reader_of(e) && is_fresh_reader(e, *level, nothing_came());
                let s = ResponseSender { phase: SendPhase::Compressed, gzip: Some(g) };
                assert(s@ == sender_for(resp@, fresh));
                (out, s)
            },
        }
    }

    /// What to do next.
    pub fn next(&mut self) -> (r: SendStep)
        ensures
            (r@, final(self)@) == next_step(old(self)@),
    {
        match self.phase {
            SendPhase::Nothing => SendStep::Done,
            SendPhase::Whole => SendStep::Read(FILE_CHUNK),
            SendPhase::Part(left) => SendStep::Read(
                if left <= FILE_CHUNK as u64 {
                    left as usize
                } else {
                    FILE_CHUNK
                },
            ),
            SendPhase::Compressed => match self.gzip.take() {
                None => SendStep::Done,
                Some(reader) => {
                    let mut g = reader;
                    match g.read(FILE_CHUNK) {
                        Err(f) => {
                            self.gzip = Some(g);
                            SendStep::Failed(f)
                        },
                        Ok(BodyPiece::NeedMore) => {
                            self.gzip = Some(g);
                            SendStep::Read(GZIP_INPUT)
                        },
                        Ok(BodyPiece::Bytes(b)) => {
                            self.gzip = Some(g);
                            SendStep::Send(write_chunked(b.as_slice(), true))
                        },
                        Ok(BodyPiece::End) => {
                            self.phase = SendPhase::Nothing;
                            let none: Vec<u8> = Vec::new();
                            assert(none@ =~= Seq::<u8>::empty());
                            SendStep::Send(write_chunked(none.as_slice(), true))
                        },
                    }
                },
            },
        }
    }

    /// Takes a piece of the file, no bytes at its end, and says what to send.
    pub fn feed(&mut self, data: &[u8]) -> (r: Relay)
        ensures
            ({
                let w = on_file(old(self)@, data@);
                &&& r.output@ == w.output
                &&& r.progress@ == w.progress
                &&& final(self)@ == w.state
            }),
    {
        let none: Vec<u8> = Vec::new();
        assert(none@ =~= Seq::<u8>::empty());
        match self.phase {
            SendPhase::Nothing => Relay { output: none, progress: Progress::Done },
            SendPhase::Whole => {
                if data.len() == 0 {
                    self.phase = SendPhase::Nothing;
                    Relay { output: none, progress: Progress::Done }
                } else {
                    Relay { output: part_bytes_all(data), progress: Progress::More }
                }
            },
            SendPhase::Part(left) => {
                if data.len() == 0 {
                    return Relay {
                        output: none,
                        progress: Progress::Failed(
                            early_end("file changed while streaming response"),
                        ),
                    };
                }
                let n: usize = data.len();
                let take: usize = if n as u64 <= left {
                    n
                } else {
                    left as usize
                };
                let rest: u64 = left - take as u64;
                let out = part_bytes(data, 0, take);
                if rest == 0 {
                    self.phase = SendPhase::Nothing;
                    Relay { output: out, progress: Progress::Done }
                } else {
                    self.phase = SendPhase::Part(rest);
                    Relay { output: out, progress: Progress::More }
                }
            },
            SendPhase::Compressed => {
                match self.gzip.take() {
                    Some(reader) => {
                        let mut g = reader;
                        g.feed(data);
                        self.gzip = Some(g);
                    },
                    None => {},
                }
                Relay { output: none, progress: Progress::More }
            },
        }
    }
}

/// A body that is compressed while it is read.
pub struct GzipReader {
    encoder: GzEncoder<Feed>,
    header: Vec<u8>,
}

#[verifier::ext_equal]
pub struct GzipReaderView {
    pub encoder: GzEncoder<Feed>,
    /// What the encoder gave out before the body and was not read yet.
    pub header: Seq<u8>,
}

impl View for GzipReader {
    type V = GzipReaderView;

    closed spec fn view(&self) -> GzipReaderView {
        GzipReaderView { encoder: self.encoder, header: self.header@ }
    }
}

/// A body of which nothing has come.
pub open spec fn nothing_came() -> FeedView {
    FeedView { waiting: Seq::empty(), ended: false }
}

/// A reader with a new encoder: the header is taken out of it at once, since an encoder
/// that has to wait for the body would lose it.
pub open spec fn reader_of(fresh: GzEncoder<Feed>) -> GzipReaderView {
    let (header, after) = pull_read(fresh, GZIP_HEADER as nat);
    GzipReaderView {
        encoder: after,
        header: match header {
            PulledView::Bytes(h) => h,
            _ => Seq::empty(),
        },
    }
}

/// The reader after more of the body has come; no bytes are its end.
pub open spec fn fed(g: GzipReaderView, data: Seq<u8>) -> GzipReaderView {
    GzipReaderView {
        encoder: pull_refilled(g.encoder, given(pull_source(g.encoder), data)),
        ..g
    }
}

/// What comes of reading so much of the compressed form at the most, and the reader after
/// it. What is left of the header comes first, with what the encoder gives out where there
/// is room for more.
pub open spec fn read_from(g: GzipReaderView, max: nat) -> (
    Result<PieceView, FaultView>,
    GzipReaderView,
) {
    let n = g.header.len();
    if max <= n && n > 0 {
        (
            Ok(PieceView::Bytes(g.header.subrange(0, max as int))),
            GzipReaderView { header: g.header.subrange(max as int, n as int), ..g },
        )
    } else {
        let (piece, after) = pull_read(g.encoder, (max - n) as nat);
        match piece {
            PulledView::Wait => (
                Ok(PieceView::NeedMore),
                GzipReaderView { encoder: after, ..g },
            ),
            PulledView::Broken => (
                Err(fault(FaultKind::Other, "response compression failed"@)),
                GzipReaderView { encoder: after, ..g },
            ),
            PulledView::Bytes(b) => (
                Ok(
                    if n + b.len() == 0 {
                        PieceView::End
                    } else {
                        PieceView::Bytes(g.header + b)
                    },
                ),
                GzipReaderView { encoder: after, header: Seq::empty() },
            ),
        }
    }
}

/// Nothing of the header is lost: what is read is the header first, and while the reader
/// waits for the body it keeps the header.
pub proof fn law_headers_are_not_lost(g: GzipReaderView, max: nat)
    requires
        g.header.len() > 0,
    ensures
        ({
            let (piece, after) = read_from(g, max);
            match piece {
                Ok(PieceView::Bytes(b)) => if max <= g.header.len() {
                    b + after.header == g.header && after.encoder == g.encoder
                } else {
                    b.len() >= g.header.len() && b.subrange(0, g.header.len() as int) == g.header
                        && after.header.len() == 0
                },
                Ok(PieceView::End) => false,
                _ => after.header == g.header,
            }
        }),
{
    let (piece, after) = read_from(g, max);
    if let Ok(PieceView::Bytes(b)) = piece {
        if max <= g.header.len() {
            assert(b + after.header =~= g.header);
        } else {
            assert(b.subrange(0, g.header.len() as int) =~= g.header);
        }
    }
}

impl GzipReader {
    /// A reader of the given level.
    pub fn new(level: u32) -> (r: Self)
        requires
            level <= 10,
        ensures
            exists|fresh: GzEncoder<Feed>|
                r@ == #[trigger] reader_of(fresh) && is_fresh_reader(
                    fresh,
                    level,
                    nothing_came(),
                ),
            r@.header.len() == GZIP_HEADER,
    {
        let mut encoder = read_encoder(Feed::new(), level);
        let ghost fresh = encoder;
        let header = match encoder_read(&mut encoder, GZIP_HEADER) {
            Pulled::Bytes(h) => h,
            _ => Vec::new(),
        };
        let r = GzipReader { encoder, header };
        assert(r@ == reader_of(fresh));
        r
    }

    /// Takes more of the body, no bytes at its end.
    pub fn feed(&mut self, data: &[u8])
        ensures
            final(self)@ == fed(old(self)@, data@),
    {
        let source = encoder_source(&mut self.encoder);
        source.give(data);
    }

    /// Reads at most `max` bytes of the compressed form.
    pub fn read(&mut self, max: usize) -> (p: Result<BodyPiece, Fault>)
        ensures
            ({
                let (piece, after) = read_from(old(self)@, max as nat);
                &&& final(self)@ == after
                &&& match piece {
                    Ok(x) => p matches Ok(y) && y@ == x,
                    Err(e) => p matches Err(f) && f@ == e,
                }
            }),
            p matches Ok(BodyPiece::Bytes(b)) ==> b@.len() <= max,
    {
        let n: usize = self.header.len();
        if max <= n && n > 0 {
            let out = part_bytes(self.header.as_slice(), 0, max);
            let rest = part_bytes(self.header.as_slice(), max, n);
            self.header = rest;
            return Ok(BodyPiece::Bytes(out));
        }
        let ghost lead = self.header@;
        match encoder_read(&mut self.encoder, max - n) {
            Pulled::Wait => Ok(BodyPiece::NeedMore),
            Pulled::Broken => Err(
                Fault { kind: FaultKind::Other, message: "response compression failed" },
            ),
            Pulled::Bytes(b) => {
                let mut out = part_bytes_all(self.header.as_slice());
                push_bytes(&mut out, b.as_slice());
                assert(out@ =~= lead + b@);
                self.header = Vec::new();
                assert(self.header@ =~= Seq::<u8>::empty());
                if out.len() == 0 {
                    Ok(BodyPiece::End)
                } else {
                    Ok(BodyPiece::Bytes(out))
                }
            },
        }
    }
}

} // verus!
