//! Compression in pieces: encoders that are written to, and encoders that are read from.

use flate2::write::GzEncoder;
use std::io::{Read, Write};
use vstd::prelude::*;

verus! {

pub open spec fn opt_bytes(b: Option<Vec<u8>>) -> Option<Seq<u8>> {
    match b {
        Some(v) => Some(v@),
        None => None,
    }
}

/// An encoder of `flate2` that collects its output in memory.
#[verifier::external_body]
pub struct Gzip {
    encoder: GzEncoder<Vec<u8>>,
}

/// What an encoder was told to do: take a piece, or, where there is none, give out
/// all that it has.
pub uninterp spec fn gzip_steps(e: Gzip) -> Seq<Option<Seq<u8>>>;

/// The level that an encoder was made with.
pub uninterp spec fn gzip_level(e: Gzip) -> u32;

/// What this encoder gives out when it takes a piece, none where it reports an error,
/// and what it is after that.
pub uninterp spec fn gzip_written(e: Gzip, piece: Seq<u8>) -> (Option<Seq<u8>>, Gzip);

/// What this encoder gives out when it is told to give out all that it has, none where
/// it reports an error, and what it is after that.
pub uninterp spec fn gzip_flushed(e: Gzip) -> (Option<Seq<u8>>, Gzip);

/// What this encoder gives out at the end; none where it reports an error.
pub uninterp spec fn gzip_end(e: Gzip) -> Option<Seq<u8>>;

/// An encoder of that level that has taken nothing.
pub open spec fn is_fresh(e: Gzip, level: u32) -> bool {
    gzip_level(e) == level && gzip_steps(e).len() == 0
}

/// `GzEncoder::new` of `flate2`: an encoder of that level that has taken nothing. Two of
/// them need not give out the same at the same time: how much an encoder holds back is up
/// to the room of its buffer.
#[verifier::external_body]
pub(crate) fn gzip_encoder(level: u32) -> (e: Gzip)
    requires
        level <= 10,
    ensures
        is_fresh(e, level),
{
    Gzip { encoder: GzEncoder::new(Vec::new(), flate2::Compression::new(level)) }
}

/// `write_all` on a `GzEncoder` of `flate2`, and what is then in its buffer: both are up
/// to the encoder and the piece. Nothing is said of what the bytes are, nor of when the
/// encoder reports an error.
#[verifier::external_body]
pub(crate) fn gzip_write(e: &mut Gzip, piece: &[u8]) -> (r: Option<Vec<u8>>)
    ensures
        gzip_written(*old(e), piece@) == (opt_bytes(r), *final(e)),
        gzip_steps(*final(e)) == gzip_steps(*old(e)).push(Some(piece@)),
        gzip_level(*final(e)) == gzip_level(*old(e)),
{
    e.encoder.write_all(piece).ok()?;
    Some(std::mem::take(e.encoder.get_mut()))
}

/// `flush` on a `GzEncoder` of `flate2`, and what is then in its buffer: both are up to
/// the encoder.
#[verifier::external_body]
pub(crate) fn gzip_flush(e: &mut Gzip) -> (r: Option<Vec<u8>>)
    ensures
        gzip_flushed(*old(e)) == (opt_bytes(r), *final(e)),
        gzip_steps(*final(e)) == gzip_steps(*old(e)).push(None),
        gzip_level(*final(e)) == gzip_level(*old(e)),
{
    e.encoder.flush().ok()?;
    Some(std::mem::take(e.encoder.get_mut()))
}

/// `GzEncoder::finish` of `flate2`: the rest of the compressed form, which is up to the
/// encoder.
#[verifier::external_body]
pub(crate) fn gzip_finish(e: Gzip) -> (r: Option<Vec<u8>>)
    ensures
        gzip_end(e) == opt_bytes(r),
{
    e.encoder.finish().ok()
}

/// The errors of reading.
#[verifier::external_type_specification]
#[verifier::external_body]
pub struct ExIoError(std::io::Error);

/// `std::io::Error::from` of `ErrorKind::WouldBlock`: the error that says that there is
/// nothing to read yet.
#[verifier::external_body]
fn nothing_yet() -> std::io::Error {
    std::io::Error::from(std::io::ErrorKind::WouldBlock)
}

/// A body that comes in pieces: what has come and was not read, and whether more can.
#[derive(Debug)]
pub struct Feed {
    data: Vec<u8>,
    at: usize,
    ended: bool,
}

#[verifier::ext_equal]
pub struct FeedView {
    pub waiting: Seq<u8>,
    pub ended: bool,
}

impl View for Feed {
    type V = FeedView;

    closed spec fn view(&self) -> FeedView {
        FeedView {
            waiting: if self.at <= self.data@.len() {
                self.data@.subrange(self.at as int, self.data@.len() as int)
            } else {
                Seq::empty()
            },
            ended: self.ended,
        }
    }
}

/// The body after more of it has come; no bytes are its end.
pub open spec fn given(f: FeedView, data: Seq<u8>) -> FeedView {
    if data.len() == 0 {
        FeedView { ended: true, ..f }
    } else {
        FeedView { waiting: f.waiting + data, ..f }
    }
}

impl Feed {
    /// Nothing has come yet.
    pub fn new() -> (f: Self)
        ensures
            f@ == (FeedView { waiting: Seq::empty(), ended: false }),
    {
        let f = Feed { data: Vec::new(), at: 0, ended: false };
        assert(f@.waiting =~= Seq::<u8>::empty());
        f
    }

    /// Takes more of the body, no bytes at its end.
    pub fn give(&mut self, data: &[u8])
        ensures
            final(self)@ == given(old(self)@, data@),
    {
        if data.len() == 0 {
            self.ended = true;
            return;
        }
        let ghost before = self@.waiting;
        let n: usize = self.data.len();
        let mut rest = if self.at <= n {
            crate::bytes::part_bytes(self.data.as_slice(), self.at, n)
        } else {
            Vec::new()
        };
        assert(rest@ =~= before);
        crate::bytes::push_bytes(&mut rest, data);
        self.data = rest;
        self.at = 0;
        assert(self@.waiting =~= before + data@);
    }
}

impl Read for Feed {
    /// Reads what has come, as far as there is room for it. Where nothing has come, the
    /// body is at its end or there is nothing to read yet.
    fn read(&mut self, buf: &mut [u8]) -> (r: std::io::Result<usize>)
        ensures
            ({
                let w = old(self)@.waiting;
                let n = if w.len() <= old(buf)@.len() {
                    w.len()
                } else {
                    old(buf)@.len()
                };
                if w.len() > 0 {
                    &&& r matches Ok(k) && k == n
                    &&& final(buf)@ == w.subrange(0, n as int) + old(buf)@.subrange(
                        n as int,
                        old(buf)@.len() as int,
                    )
                    &&& final(self)@ == (FeedView {
                        waiting: w.subrange(n as int, w.len() as int),
                        ..old(self)@
                    })
                } else {
                    &&& final(self)@ == old(self)@
                    &&& final(buf)@ == old(buf)@
                    &&& if old(self)@.ended {
                        r matches Ok(k) && k == 0
                    } else {
                        r is Err
                    }
                }
            }),
    {
        let ghost w = self@.waiting;
        let ghost b = buf@;
        if self.at >= self.data.len() {
            assert(w =~= Seq::<u8>::empty());
            return if self.ended {
                Ok(0)
            } else {
                Err(nothing_yet())
            };
        }
        let start: usize = self.at;
        let end: usize = self.data.len();
        let room: usize = buf.len();
        let n: usize = if end - start <= room {
            end - start
        } else {
            room
        };
        let mut i: usize = 0;
        while i < n
            invariant
                i <= n,
                n <= room == buf@.len() == b.len(),
                n <= end - start,
                start < end == self.data@.len(),
                w == self.data@.subrange(start as int, end as int),
                buf@ == w.subrange(0, i as int) + b.subrange(i as int, b.len() as int),
            decreases n - i,
        {
            let ghost before = buf@;
            buf[i] = self.data[start + i];
            assert(buf@ =~= before.update(i as int, w[i as int]));
            assert(buf@ =~= w.subrange(0, i + 1) + b.subrange(i + 1, b.len() as int));
            i = i + 1;
        }
        self.at = start + n;
        assert(self@.waiting =~= w.subrange(n as int, w.len() as int));
        Ok(n)
    }
}

/// An encoder that is read from and that reads what it compresses.
#[verifier::external_type_specification]
#[verifier::external_body]
#[verifier::reject_recursive_types(R)]
pub struct ExReadEncoder<R>(flate2::read::GzEncoder<R>);

/// What came of reading from an encoder.
#[derive(Debug, PartialEq, Eq)]
pub enum Pulled {
    /// So much of the compressed form; no bytes are its end.
    Bytes(Vec<u8>),
    /// More of the body has to come first.
    Wait,
    Broken,
}

#[verifier::ext_equal]
pub enum PulledView {
    Bytes(Seq<u8>),
    Wait,
    Broken,
}

impl View for Pulled {
    type V = PulledView;

    open spec fn view(&self) -> PulledView {
        match self {
            Pulled::Bytes(b) => PulledView::Bytes(b@),
            Pulled::Wait => PulledView::Wait,
            Pulled::Broken => PulledView::Broken,
        }
    }
}

/// The length of what an encoder gives out before it reads anything.
pub const GZIP_HEADER: usize = 10;

/// The level that an encoder was made with.
pub uninterp spec fn pull_level(e: flate2::read::GzEncoder<Feed>) -> u32;

/// What an encoder reads from.
pub uninterp spec fn pull_source(e: flate2::read::GzEncoder<Feed>) -> FeedView;

/// The encoder with something else to read from.
pub uninterp spec fn pull_refilled(e: flate2::read::GzEncoder<Feed>, f: FeedView) ->
    flate2::read::GzEncoder<Feed>;

/// What comes of reading so much from this encoder at the most, and what it is after
/// that.
pub uninterp spec fn pull_read(e: flate2::read::GzEncoder<Feed>, max: nat) -> (
    PulledView,
    flate2::read::GzEncoder<Feed>,
);

/// An encoder of that level from which nothing was read. Its header comes first and takes
/// nothing of the body.
pub open spec fn is_fresh_reader(e: flate2::read::GzEncoder<Feed>, level: u32, f: FeedView) -> bool {
    &&& pull_level(e) == level
    &&& pull_source(e) == f
    &&& pull_read(e, GZIP_HEADER as nat).0 matches PulledView::Bytes(b) && b.len() == GZIP_HEADER
    &&& pull_source(pull_read(e, GZIP_HEADER as nat).1) == f
}

/// `GzEncoder::new` of `flate2::read`: an encoder of that level from which nothing was
/// read. A first read of the length of its header gives out just that and does not touch
/// the body.
#[verifier::external_body]
pub(crate) fn read_encoder(f: Feed, level: u32) -> (e: flate2::read::GzEncoder<Feed>)
    requires
        level <= 10,
    ensures
        is_fresh_reader(e, level, f@),
{
    flate2::read::GzEncoder::new(f, flate2::Compression::new(level))
}

/// `get_mut` on a `GzEncoder` of `flate2::read`: what it reads from. The encoder is the
/// same afterwards but for that.
#[verifier::external_body]
pub(crate) fn encoder_source(e: &mut flate2::read::GzEncoder<Feed>) -> (f: &mut Feed)
    ensures
        f@ == pull_source(*old(e)),
        *final(e) == pull_refilled(*old(e), final(f)@),
        pull_source(*final(e)) == final(f)@,
        pull_level(*final(e)) == pull_level(*old(e)),
{
    e.get_mut()
}

/// `read` on a `GzEncoder` of `flate2::read`: what comes of it is up to the encoder and to
/// how much is asked for, and is no more than that. Nothing is said of what the bytes are,
/// nor of when it reports an error.
#[verifier::external_body]
pub(crate) fn encoder_read(e: &mut flate2::read::GzEncoder<Feed>, max: usize) -> (r: Pulled)
    ensures
        pull_read(*old(e), max as nat) == (r@, *final(e)),
        r matches Pulled::Bytes(b) ==> b@.len() <= max,
        pull_level(*final(e)) == pull_level(*old(e)),
{
    let mut buf = vec![0u8; max];
    match e.read(&mut buf) {
        Ok(n) => Pulled::Bytes(buf[..n].to_vec()),
        Err(x) if x.kind() == std::io::ErrorKind::WouldBlock => Pulled::Wait,
        Err(_) => Pulled::Broken,
    }
}

} // verus!
