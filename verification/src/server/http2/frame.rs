//! HTTP/2 frames in their binary form.

use crate::bytes::{part_bytes, part_bytes_all, push_bytes};
use crate::server::http2::flags;
use vstd::prelude::*;

verus! {

pub const FRAME_HEADER_SIZE: usize = 9;

pub const DEFAULT_MAX_FRAME_SIZE: u32 = 16384;

pub const MAX_ALLOWED_FRAME_SIZE: u32 = 16777215;

#[derive(Debug, Clone, Copy, PartialEq, Eq, Structural)]
pub enum Http2ErrorCode {
    NoError,
    ProtocolError,
    InternalError,
    FlowControlError,
    SettingsTimeout,
    StreamClosed,
    FrameSizeError,
    RefusedStream,
    Cancel,
    CompressionError,
    ConnectError,
    EnhanceYourCalm,
    InadequateSecurity,
    Http11Required,
}

impl Http2ErrorCode {
    /// The number of the error on the wire.
    pub open spec fn number(self) -> u32 {
        match self {
            Http2ErrorCode::NoError => 0,
            Http2ErrorCode::ProtocolError => 1,
            Http2ErrorCode::InternalError => 2,
            Http2ErrorCode::FlowControlError => 3,
            Http2ErrorCode::SettingsTimeout => 4,
            Http2ErrorCode::StreamClosed => 5,
            Http2ErrorCode::FrameSizeError => 6,
            Http2ErrorCode::RefusedStream => 7,
            Http2ErrorCode::Cancel => 8,
            Http2ErrorCode::CompressionError => 9,
            Http2ErrorCode::ConnectError => 10,
            Http2ErrorCode::EnhanceYourCalm => 11,
            Http2ErrorCode::InadequateSecurity => 12,
            Http2ErrorCode::Http11Required => 13,
        }
    }

    /// The error of a number; unknown numbers count as protocol errors.
    pub open spec fn of_number(n: u32) -> Http2ErrorCode {
        if n == 0 {
            Http2ErrorCode::NoError
        } else if n == 2 {
            Http2ErrorCode::InternalError
        } else if n == 3 {
            Http2ErrorCode::FlowControlError
        } else if n == 4 {
            Http2ErrorCode::SettingsTimeout
        } else if n == 5 {
            Http2ErrorCode::StreamClosed
        } else if n == 6 {
            Http2ErrorCode::FrameSizeError
        } else if n == 7 {
            Http2ErrorCode::RefusedStream
        } else if n == 8 {
            Http2ErrorCode::Cancel
        } else if n == 9 {
            Http2ErrorCode::CompressionError
        } else if n == 10 {
            Http2ErrorCode::ConnectError
        } else if n == 11 {
            Http2ErrorCode::EnhanceYourCalm
        } else if n == 12 {
            Http2ErrorCode::InadequateSecurity
        } else if n == 13 {
            Http2ErrorCode::Http11Required
        } else {
            Http2ErrorCode::ProtocolError
        }
    }

    /// The number of the error on the wire.
    pub fn to_u32(&self) -> (n: u32)
        ensures
            n == self.number(),
    {
        match self {
            Http2ErrorCode::NoError => 0,
            Http2ErrorCode::ProtocolError => 1,
            Http2ErrorCode::InternalError => 2,
            Http2ErrorCode::FlowControlError => 3,
            Http2ErrorCode::SettingsTimeout => 4,
            Http2ErrorCode::StreamClosed => 5,
            Http2ErrorCode::FrameSizeError => 6,
            Http2ErrorCode::RefusedStream => 7,
            Http2ErrorCode::Cancel => 8,
            Http2ErrorCode::CompressionError => 9,
            Http2ErrorCode::ConnectError => 10,
            Http2ErrorCode::EnhanceYourCalm => 11,
            Http2ErrorCode::InadequateSecurity => 12,
            Http2ErrorCode::Http11Required => 13,
        }
    }

    /// The error of a number.
    pub fn from_u32(val: u32) -> (r: Self)
        ensures
            r == Http2ErrorCode::of_number(val),
    {
        match val {
            0x0 => Http2ErrorCode::NoError,
            0x1 => Http2ErrorCode::ProtocolError,
            0x2 => Http2ErrorCode::InternalError,
            0x3 => Http2ErrorCode::FlowControlError,
            0x4 => Http2ErrorCode::SettingsTimeout,
            0x5 => Http2ErrorCode::StreamClosed,
            0x6 => Http2ErrorCode::FrameSizeError,
            0x7 => Http2ErrorCode::RefusedStream,
            0x8 => Http2ErrorCode::Cancel,
            0x9 => Http2ErrorCode::CompressionError,
            0xa => Http2ErrorCode::ConnectError,
            0xb => Http2ErrorCode::EnhanceYourCalm,
            0xc => Http2ErrorCode::InadequateSecurity,
            0xd => Http2ErrorCode::Http11Required,
            _ => Http2ErrorCode::ProtocolError,
        }
    }
}

/// An error code survives the way through its number.
pub proof fn law_error_numbers_round_trip(e: Http2ErrorCode)
    ensures
        Http2ErrorCode::of_number(e.number()) == e,
{
}

#[derive(Debug, Clone, Copy, PartialEq, Eq, Structural)]
pub enum FrameType {
    Data,
    Headers,
    Priority,
    RstStream,
    Settings,
    PushPromise,
    Ping,
    GoAway,
    WindowUpdate,
    Continuation,
    Unknown(u8),
}

pub open spec fn frame_type(n: u8) -> FrameType {
    if n == 0 {
        FrameType::Data
    } else if n == 1 {
        FrameType::Headers
    } else if n == 2 {
        FrameType::Priority
    } else if n == 3 {
        FrameType::RstStream
    } else if n == 4 {
        FrameType::Settings
    } else if n == 5 {
        FrameType::PushPromise
    } else if n == 6 {
        FrameType::Ping
    } else if n == 7 {
        FrameType::GoAway
    } else if n == 8 {
        FrameType::WindowUpdate
    } else if n == 9 {
        FrameType::Continuation
    } else {
        FrameType::Unknown(n)
    }
}

pub open spec fn frame_type_number(t: FrameType) -> u8 {
    match t {
        FrameType::Data => 0,
        FrameType::Headers => 1,
        FrameType::Priority => 2,
        FrameType::RstStream => 3,
        FrameType::Settings => 4,
        FrameType::PushPromise => 5,
        FrameType::Ping => 6,
        FrameType::GoAway => 7,
        FrameType::WindowUpdate => 8,
        FrameType::Continuation => 9,
        FrameType::Unknown(n) => n,
    }
}

impl From<u8> for FrameType {
    fn from(val: u8) -> (r: Self) {
        match val {
            0x0 => FrameType::Data,
            0x1 => FrameType::Headers,
            0x2 => FrameType::Priority,
            0x3 => FrameType::RstStream,
            0x4 => FrameType::Settings,
            0x5 => FrameType::PushPromise,
            0x6 => FrameType::Ping,
            0x7 => FrameType::GoAway,
            0x8 => FrameType::WindowUpdate,
            0x9 => FrameType::Continuation,
            other => FrameType::Unknown(other),
        }
    }
}

impl vstd::std_specs::convert::FromSpecImpl<u8> for FrameType {
    open spec fn obeys_from_spec() -> bool {
        true
    }

    open spec fn from_spec(val: u8) -> Self {
        frame_type(val)
    }
}

impl From<FrameType> for u8 {
    fn from(ft: FrameType) -> (r: u8) {
        match ft {
            FrameType::Data => 0x0,
            FrameType::Headers => 0x1,
            FrameType::Priority => 0x2,
            FrameType::RstStream => 0x3,
            FrameType::Settings => 0x4,
            FrameType::PushPromise => 0x5,
            FrameType::Ping => 0x6,
            FrameType::GoAway => 0x7,
            FrameType::WindowUpdate => 0x8,
            FrameType::Continuation => 0x9,
            FrameType::Unknown(val) => val,
        }
    }
}

impl vstd::std_specs::convert::FromSpecImpl<FrameType> for u8 {
    open spec fn obeys_from_spec() -> bool {
        true
    }

    open spec fn from_spec(ft: FrameType) -> u8 {
        frame_type_number(ft)
    }
}

/// The frame header: nine bytes.
#[derive(Debug, Clone, Copy, PartialEq, Eq, Structural)]
pub struct FrameHeader {
    pub length: u32,
    pub frame_type: FrameType,
    pub flags: u8,
    pub stream_id: u32,
}

/// Four bytes, most significant first, as a number.
pub open spec fn be32(a: u8, b: u8, c: u8, d: u8) -> u32 {
    ((a as u32) << 24) | ((b as u32) << 16) | ((c as u32) << 8) | (d as u32)
}

pub open spec fn be16(a: u8, b: u8) -> u16 {
    ((a as u16) << 8) | (b as u16)
}

/// The bytes of a number, most significant first.
pub open spec fn bytes32(v: u32) -> Seq<u8> {
    seq![
        ((v >> 24) & 0xff) as u8,
        ((v >> 16) & 0xff) as u8,
        ((v >> 8) & 0xff) as u8,
        (v & 0xff) as u8,
    ]
}

pub open spec fn bytes16(v: u16) -> Seq<u8> {
    seq![((v >> 8) & 0xff) as u8, (v & 0xff) as u8]
}

/// The number without its reserved top bit.
pub open spec fn low31(v: u32) -> u32 {
    v & 0x7fff_ffff
}

/// The header in the first nine bytes.
pub open spec fn header_of(b: Seq<u8>) -> FrameHeader {
    FrameHeader {
        length: ((b[0] as u32) << 16) | ((b[1] as u32) << 8) | (b[2] as u32),
        frame_type: frame_type(b[3]),
        flags: b[4],
        stream_id: low31(be32(b[5], b[6], b[7], b[8])),
    }
}

/// The nine bytes of a header.
pub open spec fn header_bytes(h: FrameHeader) -> Seq<u8> {
    seq![
        ((h.length >> 16) & 0xff) as u8,
        ((h.length >> 8) & 0xff) as u8,
        (h.length & 0xff) as u8,
        frame_type_number(h.frame_type),
        h.flags,
    ] + bytes32(low31(h.stream_id))
}

/// A header that nine bytes can hold.
pub open spec fn header_fits(h: FrameHeader) -> bool {
    h.length <= MAX_ALLOWED_FRAME_SIZE && h.stream_id <= 0x7fff_ffff && frame_type(
        frame_type_number(h.frame_type),
    ) == h.frame_type
}

proof fn lemma_be32(v: u32)
    ensures
        be32(bytes32(v)[0], bytes32(v)[1], bytes32(v)[2], bytes32(v)[3]) == v,
{
    assert((((((v >> 24) & 0xff) as u8) as u32) << 24) | (((((v >> 16) & 0xff) as u8) as u32) << 16)
        | (((((v >> 8) & 0xff) as u8) as u32) << 8) | (((v & 0xff) as u8) as u32) == v)
        by (bit_vector);
}

proof fn lemma_be16(v: u16)
    ensures
        be16(bytes16(v)[0], bytes16(v)[1]) == v,
{
    assert((((((v >> 8) & 0xff) as u8) as u16) << 8) | (((v & 0xff) as u8) as u16) == v)
        by (bit_vector);
}

proof fn lemma_low31(v: u32)
    ensures
        low31(v) <= 0x7fff_ffff,
        v <= 0x7fff_ffff ==> low31(v) == v,
        low31(low31(v)) == low31(v),
{
    assert(v & 0x7fff_ffff <= 0x7fff_ffff) by (bit_vector);
    assert(v <= 0x7fff_ffff ==> v & 0x7fff_ffff == v) by (bit_vector);
    assert((v & 0x7fff_ffff) & 0x7fff_ffff == v & 0x7fff_ffff) by (bit_vector);
}

/// A header that is written is read back.
pub proof fn law_headers_round_trip(h: FrameHeader)
    requires
        header_fits(h),
    ensures
        header_bytes(h).len() == FRAME_HEADER_SIZE,
        header_of(header_bytes(h)) == h,
{
    let n = h.length;
    assert(n <= 0xff_ffff ==> (((((n >> 16) & 0xff) as u8) as u32) << 16) | (((((n >> 8)
        & 0xff) as u8) as u32) << 8) | (((n & 0xff) as u8) as u32) == n) by (bit_vector);
    lemma_low31(h.stream_id);
    lemma_be32(h.stream_id);
}

/// A header that was read can be written again.
pub proof fn law_read_headers_fit(b: Seq<u8>)
    requires
        b.len() >= FRAME_HEADER_SIZE,
    ensures
        header_fits(header_of(b)),
{
    let x = b[0];
    let y = b[1];
    let z = b[2];
    assert(((x as u32) << 16) | ((y as u32) << 8) | (z as u32) <= 0xff_ffff) by (bit_vector);
    lemma_low31(be32(b[5], b[6], b[7], b[8]));
}

fn read32(b: &[u8], i: usize) -> (v: u32)
    requires
        i + 4 <= b@.len(),
    ensures
        v == be32(b@[i as int], b@[i + 1], b@[i + 2], b@[i + 3]),
{
    ((b[i] as u32) << 24) | ((b[i + 1] as u32) << 16) | ((b[i + 2] as u32) << 8) | (b[i
        + 3] as u32)
}

fn push32(out: &mut Vec<u8>, v: u32)
    ensures
        final(out)@ == old(out)@ + bytes32(v),
{
    let ghost start = out@;
    out.push(((v >> 24) & 0xff) as u8);
    out.push(((v >> 16) & 0xff) as u8);
    out.push(((v >> 8) & 0xff) as u8);
    out.push((v & 0xff) as u8);
    assert(out@ =~= start + bytes32(v));
}

fn push16(out: &mut Vec<u8>, v: u16)
    ensures
        final(out)@ == old(out)@ + bytes16(v),
{
    let ghost start = out@;
    out.push(((v >> 8) & 0xff) as u8);
    out.push((v & 0xff) as u8);
    assert(out@ =~= start + bytes16(v));
}

impl FrameHeader {
    /// Reads a header from the first nine bytes.
    pub fn parse(buf: &[u8]) -> (r: Result<Self, Http2ErrorCode>)
        ensures
            r == (if buf@.len() < FRAME_HEADER_SIZE {
                Err::<FrameHeader, _>(Http2ErrorCode::FrameSizeError)
            } else {
                Ok::<_, Http2ErrorCode>(header_of(buf@))
            }),
    {
        if buf.len() < FRAME_HEADER_SIZE {
            return Err(Http2ErrorCode::FrameSizeError);
        }
        let length: u32 = ((buf[0] as u32) << 16) | ((buf[1] as u32) << 8) | (buf[2] as u32);
        let raw: u32 = read32(buf, 5);
        Ok(
            FrameHeader {
                length,
                frame_type: FrameType::from(buf[3]),
                flags: buf[4],
                stream_id: raw & 0x7fff_ffff,
            },
        )
    }

    /// The nine bytes of the header.
    pub fn encode(&self) -> (r: [u8; 9])
        ensures
            r@ == header_bytes(*self),
    {
        let sid: u32 = self.stream_id & 0x7fff_ffff;
        let r: [u8; 9] = [
            ((self.length >> 16) & 0xff) as u8,
            ((self.length >> 8) & 0xff) as u8,
            (self.length & 0xff) as u8,
            u8::from(self.frame_type),
            self.flags,
            ((sid >> 24) & 0xff) as u8,
            ((sid >> 16) & 0xff) as u8,
            ((sid >> 8) & 0xff) as u8,
            (sid & 0xff) as u8,
        ];
        assert(r@ =~= header_bytes(*self));
        r
    }
}

#[derive(Debug, Clone, Copy, PartialEq, Eq, Structural)]
pub enum SettingId {
    HeaderTableSize,
    EnablePush,
    MaxConcurrentStreams,
    InitialWindowSize,
    MaxFrameSize,
    MaxHeaderListSize,
    Unknown(u16),
}

pub open spec fn setting_id(n: u16) -> SettingId {
    if n == 1 {
        SettingId::HeaderTableSize
    } else if n == 2 {
        SettingId::EnablePush
    } else if n == 3 {
        SettingId::MaxConcurrentStreams
    } else if n == 4 {
        SettingId::InitialWindowSize
    } else if n == 5 {
        SettingId::MaxFrameSize
    } else if n == 6 {
        SettingId::MaxHeaderListSize
    } else {
        SettingId::Unknown(n)
    }
}

pub open spec fn setting_number(id: SettingId) -> u16 {
    match id {
        SettingId::HeaderTableSize => 1,
        SettingId::EnablePush => 2,
        SettingId::MaxConcurrentStreams => 3,
        SettingId::InitialWindowSize => 4,
        SettingId::MaxFrameSize => 5,
        SettingId::MaxHeaderListSize => 6,
        SettingId::Unknown(n) => n,
    }
}

impl From<u16> for SettingId {
    fn from(val: u16) -> (r: Self) {
        match val {
            0x1 => SettingId::HeaderTableSize,
            0x2 => SettingId::EnablePush,
            0x3 => SettingId::MaxConcurrentStreams,
            0x4 => SettingId::InitialWindowSize,
            0x5 => SettingId::MaxFrameSize,
            0x6 => SettingId::MaxHeaderListSize,
            other => SettingId::Unknown(other),
        }
    }
}

impl vstd::std_specs::convert::FromSpecImpl<u16> for SettingId {
    open spec fn obeys_from_spec() -> bool {
        true
    }

    open spec fn from_spec(val: u16) -> Self {
        setting_id(val)
    }
}

impl From<SettingId> for u16 {
    fn from(id: SettingId) -> (r: u16) {
        match id {
            SettingId::HeaderTableSize => 0x1,
            SettingId::EnablePush => 0x2,
            SettingId::MaxConcurrentStreams => 0x3,
            SettingId::InitialWindowSize => 0x4,
            SettingId::MaxFrameSize => 0x5,
            SettingId::MaxHeaderListSize => 0x6,
            SettingId::Unknown(val) => val,
        }
    }
}

impl vstd::std_specs::convert::FromSpecImpl<SettingId> for u16 {
    open spec fn obeys_from_spec() -> bool {
        true
    }

    open spec fn from_spec(id: SettingId) -> u16 {
        setting_number(id)
    }
}

/// What a frame carries.
#[derive(Debug, PartialEq, Eq)]
pub enum FramePayload {
    Data { data: Vec<u8>, end_stream: bool },
    Headers { header_block: Vec<u8>, end_stream: bool, end_headers: bool },
    Priority { stream_dependency: u32, weight: u8, exclusive: bool },
    RstStream { error_code: Http2ErrorCode },
    Settings { settings: Vec<(SettingId, u32)>, ack: bool },
    PushPromise { promised_stream_id: u32, header_block: Vec<u8> },
    Ping { opaque_data: [u8; 8], ack: bool },
    GoAway { last_stream_id: u32, error_code: Http2ErrorCode, debug_data: Vec<u8> },
    WindowUpdate { window_size_increment: u32 },
    Continuation { header_block: Vec<u8>, end_headers: bool },
    Unknown { payload: Vec<u8> },
}

#[verifier::ext_equal]
pub enum PayloadView {
    Data { data: Seq<u8>, end_stream: bool },
    Headers { header_block: Seq<u8>, end_stream: bool, end_headers: bool },
    Priority { stream_dependency: u32, weight: u8, exclusive: bool },
    RstStream { error_code: Http2ErrorCode },
    Settings { settings: Seq<(SettingId, u32)>, ack: bool },
    PushPromise { promised_stream_id: u32, header_block: Seq<u8> },
    Ping { opaque_data: Seq<u8>, ack: bool },
    GoAway { last_stream_id: u32, error_code: Http2ErrorCode, debug_data: Seq<u8> },
    WindowUpdate { window_size_increment: u32 },
    Continuation { header_block: Seq<u8>, end_headers: bool },
    Unknown { payload: Seq<u8> },
}

impl View for FramePayload {
    type V = PayloadView;

    open spec fn view(&self) -> PayloadView {
        match self {
            FramePayload::Data { data, end_stream } => PayloadView::Data {
                data: data@,
                end_stream: *end_stream,
            },
            FramePayload::Headers { header_block, end_stream, end_headers } => {
                PayloadView::Headers {
                    header_block: header_block@,
                    end_stream: *end_stream,
                    end_headers: *end_headers,
                }
            },
            FramePayload::Priority { stream_dependency, weight, exclusive } => {
                PayloadView::Priority {
                    stream_dependency: *stream_dependency,
                    weight: *weight,
                    exclusive: *exclusive,
                }
            },
            FramePayload::RstStream { error_code } => PayloadView::RstStream {
                error_code: *error_code,
            },
            FramePayload::Settings { settings, ack } => PayloadView::Settings {
                settings: settings@,
                ack: *ack,
            },
            FramePayload::PushPromise { promised_stream_id, header_block } => {
                PayloadView::PushPromise {
                    promised_stream_id: *promised_stream_id,
                    header_block: header_block@,
                }
            },
            FramePayload::Ping { opaque_data, ack } => PayloadView::Ping {
                opaque_data: opaque_data@,
                ack: *ack,
            },
            FramePayload::GoAway { last_stream_id, error_code, debug_data } => {
                PayloadView::GoAway {
                    last_stream_id: *last_stream_id,
                    error_code: *error_code,
                    debug_data: debug_data@,
                }
            },
            FramePayload::WindowUpdate { window_size_increment } => PayloadView::WindowUpdate {
                window_size_increment: *window_size_increment,
            },
            FramePayload::Continuation { header_block, end_headers } => {
                PayloadView::Continuation {
                    header_block: header_block@,
                    end_headers: *end_headers,
                }
            },
            FramePayload::Unknown { payload } => PayloadView::Unknown { payload: payload@ },
        }
    }
}

/// A frame.
#[derive(Debug, PartialEq, Eq)]
pub struct Frame {
    pub header: FrameHeader,
    pub payload: FramePayload,
}

#[verifier::ext_equal]
pub struct FrameView {
    pub header: FrameHeader,
    pub payload: PayloadView,
}

impl View for Frame {
    type V = FrameView;

    open spec fn view(&self) -> FrameView {
        FrameView { header: self.header, payload: self.payload@ }
    }
}

pub open spec fn has_flag(h: FrameHeader, bit: u8) -> bool {
    h.flags & bit != 0
}

/// The content between the padding length and the padding.
pub open spec fn unpadded_data(h: FrameHeader, b: Seq<u8>) -> Result<Seq<u8>, Http2ErrorCode> {
    if !has_flag(h, flags::PADDED) {
        Ok(b)
    } else if b.len() == 0 {
        Err(Http2ErrorCode::FrameSizeError)
    } else if 1 + b[0] > b.len() {
        Err(Http2ErrorCode::ProtocolError)
    } else {
        Ok(b.subrange(1, b.len() - b[0]))
    }
}

/// The header block behind the padding length and the priority fields.
pub open spec fn unpadded_headers(h: FrameHeader, b: Seq<u8>) -> Result<Seq<u8>, Http2ErrorCode> {
    let padded = has_flag(h, flags::PADDED);
    let pad: int = if padded {
        b[0] as int
    } else {
        0
    };
    let lead: int = if padded {
        1
    } else {
        0
    };
    let offset: int = if has_flag(h, flags::PRIORITY) {
        lead + 5
    } else {
        lead
    };
    if padded && b.len() == 0 {
        Err(Http2ErrorCode::FrameSizeError)
    } else if has_flag(h, flags::PRIORITY) && b.len() < offset {
        Err(Http2ErrorCode::FrameSizeError)
    } else if offset + pad > b.len() {
        Err(Http2ErrorCode::ProtocolError)
    } else {
        Ok(b.subrange(offset, b.len() - pad))
    }
}

pub open spec fn setting_at(b: Seq<u8>, i: int) -> (SettingId, u32) {
    (
        setting_id(be16(b[6 * i], b[6 * i + 1])),
        be32(b[6 * i + 2], b[6 * i + 3], b[6 * i + 4], b[6 * i + 5]),
    )
}

/// The settings in groups of six bytes.
pub open spec fn settings_of(b: Seq<u8>) -> Seq<(SettingId, u32)> {
    Seq::new(b.len() / 6, |i: int| setting_at(b, i))
}

/// What the payload bytes of a frame mean.
pub open spec fn payload_of(h: FrameHeader, b: Seq<u8>) -> Result<PayloadView, Http2ErrorCode> {
    let protocol = Err(Http2ErrorCode::ProtocolError);
    let size = Err(Http2ErrorCode::FrameSizeError);
    let end_stream = has_flag(h, flags::END_STREAM);
    let end_headers = has_flag(h, flags::END_HEADERS);
    let ack = has_flag(h, flags::ACK);
    if b.len() != h.length {
        size
    } else {
        match h.frame_type {
            FrameType::Data => if h.stream_id == 0 {
                protocol
            } else {
                match unpadded_data(h, b) {
                    Ok(data) => Ok(PayloadView::Data { data, end_stream }),
                    Err(e) => Err(e),
                }
            },
            FrameType::Headers => if h.stream_id == 0 {
                protocol
            } else {
                match unpadded_headers(h, b) {
                    Ok(header_block) => Ok(
                        PayloadView::Headers { header_block, end_stream, end_headers },
                    ),
                    Err(e) => Err(e),
                }
            },
            FrameType::Priority => if h.stream_id == 0 {
                protocol
            } else if b.len() != 5 {
                size
            } else {
                Ok(
                    PayloadView::Priority {
                        stream_dependency: low31(be32(b[0], b[1], b[2], b[3])),
                        weight: b[4],
                        exclusive: be32(b[0], b[1], b[2], b[3]) & 0x8000_0000 != 0,
                    },
                )
            },
            FrameType::RstStream => if h.stream_id == 0 {
                protocol
            } else if b.len() != 4 {
                size
            } else {
                Ok(
                    PayloadView::RstStream {
                        error_code: Http2ErrorCode::of_number(be32(b[0], b[1], b[2], b[3])),
                    },
                )
            },
            FrameType::Settings => if h.stream_id != 0 {
                protocol
            } else if ack && b.len() != 0 {
                size
            } else if b.len() % 6 != 0 {
                size
            } else {
                Ok(PayloadView::Settings { settings: settings_of(b), ack })
            },
            FrameType::PushPromise => protocol,
            FrameType::Ping => if h.stream_id != 0 {
                protocol
            } else if b.len() != 8 {
                size
            } else {
                Ok(PayloadView::Ping { opaque_data: b, ack })
            },
            FrameType::GoAway => if h.stream_id != 0 {
                protocol
            } else if b.len() < 8 {
                size
            } else {
                Ok(
                    PayloadView::GoAway {
                        last_stream_id: low31(be32(b[0], b[1], b[2], b[3])),
                        error_code: Http2ErrorCode::of_number(be32(b[4], b[5], b[6], b[7])),
                        debug_data: b.subrange(8, b.len() as int),
                    },
                )
            },
            FrameType::WindowUpdate => if b.len() != 4 {
                size
            } else if low31(be32(b[0], b[1], b[2], b[3])) == 0 {
                protocol
            } else {
                Ok(
                    PayloadView::WindowUpdate {
                        window_size_increment: low31(be32(b[0], b[1], b[2], b[3])),
                    },
                )
            },
            FrameType::Continuation => if h.stream_id == 0 {
                protocol
            } else {
                Ok(PayloadView::Continuation { header_block: b, end_headers })
            },
            FrameType::Unknown(_) => Ok(PayloadView::Unknown { payload: b }),
        }
    }
}

/// The bytes of a list of settings.
pub open spec fn settings_bytes(s: Seq<(SettingId, u32)>) -> Seq<u8>
    decreases s.len(),
{
    if s.len() == 0 {
        Seq::empty()
    } else {
        settings_bytes(s.drop_last()) + bytes16(setting_number(s.last().0)) + bytes32(s.last().1)
    }
}

/// The payload bytes of a frame.
pub open spec fn payload_bytes(p: PayloadView) -> Seq<u8> {
    match p {
        PayloadView::Data { data, .. } => data,
        PayloadView::Headers { header_block, .. } => header_block,
        PayloadView::Priority { stream_dependency, weight, exclusive } => bytes32(
            if exclusive {
                stream_dependency | 0x8000_0000
            } else {
                low31(stream_dependency)
            },
        ).push(weight),
        PayloadView::RstStream { error_code } => bytes32(error_code.number()),
        PayloadView::Settings { settings, .. } => settings_bytes(settings),
        PayloadView::PushPromise { promised_stream_id, header_block } => bytes32(
            low31(promised_stream_id),
        ) + header_block,
        PayloadView::Ping { opaque_data, .. } => opaque_data,
        PayloadView::GoAway { last_stream_id, error_code, debug_data } => bytes32(
            low31(last_stream_id),
        ) + bytes32(error_code.number()) + debug_data,
        PayloadView::WindowUpdate { window_size_increment } => bytes32(
            low31(window_size_increment),
        ),
        PayloadView::Continuation { header_block, .. } => header_block,
        PayloadView::Unknown { payload } => payload,
    }
}

/// The bytes of a frame; the length field follows from the payload.
pub open spec fn frame_bytes(f: FrameView) -> Seq<u8> {
    let b = payload_bytes(f.payload);
    header_bytes(FrameHeader { length: b.len() as u32, ..f.header }) + b
}

/// A frame whose header says what its payload is: type, stream and flags agree,
/// without padding and priority fields, and every number fits its field.
pub open spec fn frame_consistent(f: FrameView) -> bool {
    let h = f.header;
    &&& header_fits(h)
    &&& payload_bytes(f.payload).len() == h.length
    &&& match f.payload {
        PayloadView::Data { end_stream, .. } => h.frame_type is Data && h.stream_id != 0
            && !has_flag(h, flags::PADDED) && end_stream == has_flag(h, flags::END_STREAM),
        PayloadView::Headers { end_stream, end_headers, .. } => h.frame_type is Headers
            && h.stream_id != 0 && !has_flag(h, flags::PADDED) && !has_flag(h, flags::PRIORITY)
            && end_stream == has_flag(h, flags::END_STREAM) && end_headers == has_flag(
            h,
            flags::END_HEADERS,
        ),
        PayloadView::Priority { stream_dependency, .. } => h.frame_type is Priority && h.stream_id
            != 0 && stream_dependency <= 0x7fff_ffff,
        PayloadView::RstStream { .. } => h.frame_type is RstStream && h.stream_id != 0,
        PayloadView::Settings { settings, ack } => h.frame_type is Settings && h.stream_id == 0
            && ack == has_flag(h, flags::ACK) && (ack ==> settings.len() == 0) && forall|i: int|
            0 <= i < settings.len() ==> setting_id(setting_number((#[trigger] settings[i]).0))
                == settings[i].0,
        PayloadView::PushPromise { .. } => false,
        PayloadView::Ping { opaque_data, ack } => h.frame_type is Ping && h.stream_id == 0
            && opaque_data.len() == 8 && ack == has_flag(h, flags::ACK),
        PayloadView::GoAway { last_stream_id, .. } => h.frame_type is GoAway && h.stream_id == 0
            && last_stream_id <= 0x7fff_ffff,
        PayloadView::WindowUpdate { window_size_increment } => h.frame_type is WindowUpdate && 0
            < window_size_increment <= 0x7fff_ffff,
        PayloadView::Continuation { end_headers, .. } => h.frame_type is Continuation
            && h.stream_id != 0 && end_headers == has_flag(h, flags::END_HEADERS),
        PayloadView::Unknown { .. } => h.frame_type is Unknown,
    }
}

proof fn lemma_settings(s: Seq<(SettingId, u32)>)
    requires
        forall|i: int|
            0 <= i < s.len() ==> setting_id(setting_number((#[trigger] s[i]).0)) == s[i].0,
    ensures
        settings_bytes(s).len() == 6 * s.len(),
        settings_of(settings_bytes(s)) == s,
    decreases s.len(),
{
    let b = settings_bytes(s);
    if s.len() > 0 {
        let r = s.drop_last();
        assert forall|i: int| 0 <= i < r.len() implies setting_id(
            setting_number((#[trigger] r[i]).0),
        ) == r[i].0 by {
            assert(r[i] == s[i]);
        }
        lemma_settings(r);
        let a = settings_bytes(r);
        let id = setting_number(s.last().0);
        let v = s.last().1;
        lemma_be16(id);
        lemma_be32(v);
        assert(b.len() == a.len() + 6);
        assert forall|i: int| 0 <= i < s.len() implies setting_at(b, i) == s[i] by {
            if i < r.len() {
                assert(settings_of(a)[i] == setting_at(a, i));
                assert(forall|k: int| 0 <= k < a.len() ==> b[k] == a[k]);
            } else {
                assert(6 * i == a.len());
                assert(b[6 * i] == bytes16(id)[0]);
                assert(b[6 * i + 1] == bytes16(id)[1]);
                assert(b[6 * i + 2] == bytes32(v)[0]);
                assert(b[6 * i + 3] == bytes32(v)[1]);
                assert(b[6 * i + 4] == bytes32(v)[2]);
                assert(b[6 * i + 5] == bytes32(v)[3]);
                assert(s[i] == s.last());
            }
        }
    }
    assert(settings_of(b) =~= s);
}

/// A frame that is written is read back.
pub proof fn law_frames_round_trip(f: FrameView)
    requires
        frame_consistent(f),
    ensures
        payload_of(f.header, payload_bytes(f.payload)) == Ok::<_, Http2ErrorCode>(f.payload),
        frame_bytes(f) == header_bytes(f.header) + payload_bytes(f.payload),
        header_of(frame_bytes(f)) == f.header,
        frame_bytes(f).subrange(FRAME_HEADER_SIZE as int, frame_bytes(f).len() as int)
            == payload_bytes(f.payload),
{
    let h = f.header;
    let b = payload_bytes(f.payload);
    law_headers_round_trip(h);
    assert(header_bytes(h) =~= header_bytes(FrameHeader { length: b.len() as u32, ..h }));
    let w = frame_bytes(f);
    assert(forall|i: int| 0 <= i < 9 ==> w[i] == header_bytes(h)[i]);
    assert(w.subrange(9, w.len() as int) =~= b);
    assert(b.subrange(0, b.len() as int) =~= b);
    match f.payload {
        PayloadView::Priority { stream_dependency, weight, exclusive } => {
            let d = stream_dependency;
            let x = if exclusive {
                d | 0x8000_0000
            } else {
                low31(d)
            };
            lemma_be32(x);
            lemma_low31(d);
            assert(b[0] == bytes32(x)[0] && b[1] == bytes32(x)[1] && b[2] == bytes32(x)[2] && b[3]
                == bytes32(x)[3]);
            assert(d <= 0x7fff_ffff ==> (d | 0x8000_0000) & 0x7fff_ffff == d && (d | 0x8000_0000)
                & 0x8000_0000 != 0 && d & 0x8000_0000 == 0) by (bit_vector);
        },
        PayloadView::RstStream { error_code } => {
            lemma_be32(error_code.number());
        },
        PayloadView::Settings { settings, ack } => {
            lemma_settings(settings);
            if ack {
                assert(settings_bytes(settings) =~= Seq::<u8>::empty());
            }
        },
        PayloadView::GoAway { last_stream_id, error_code, debug_data } => {
            lemma_be32(low31(last_stream_id));
            lemma_be32(error_code.number());
            lemma_low31(last_stream_id);
            assert(b.subrange(8, b.len() as int) =~= debug_data);
            assert(b[4] == bytes32(error_code.number())[0]);
            assert(b[5] == bytes32(error_code.number())[1]);
            assert(b[6] == bytes32(error_code.number())[2]);
            assert(b[7] == bytes32(error_code.number())[3]);
        },
        PayloadView::WindowUpdate { window_size_increment } => {
            lemma_be32(low31(window_size_increment));
            lemma_low31(window_size_increment);
        },
        _ => {},
    }
}

fn flag_set(h: &FrameHeader, bit: u8) -> (b: bool)
    ensures
        b == has_flag(*h, bit),
{
    (h.flags & bit) != 0
}

fn read_data(h: &FrameHeader, b: &[u8]) -> (r: Result<Vec<u8>, Http2ErrorCode>)
    ensures
        match r {
            Ok(v) => unpadded_data(*h, b@) == Ok::<_, Http2ErrorCode>(v@),
            Err(e) => unpadded_data(*h, b@) == Err::<Seq<u8>, _>(e),
        },
{
    if !flag_set(h, flags::PADDED) {
        return Ok(part_bytes_all(b));
    }
    if b.len() == 0 {
        return Err(Http2ErrorCode::FrameSizeError);
    }
    let pad: usize = b[0] as usize;
    if 1 + pad > b.len() {
        return Err(Http2ErrorCode::ProtocolError);
    }
    Ok(part_bytes(b, 1, b.len() - pad))
}

fn read_header_block(h: &FrameHeader, b: &[u8]) -> (r: Result<Vec<u8>, Http2ErrorCode>)
    ensures
        match r {
            Ok(v) => unpadded_headers(*h, b@) == Ok::<_, Http2ErrorCode>(v@),
            Err(e) => unpadded_headers(*h, b@) == Err::<Seq<u8>, _>(e),
        },
{
    let mut offset: usize = 0;
    let mut pad: usize = 0;
    if flag_set(h, flags::PADDED) {
        if b.len() == 0 {
            return Err(Http2ErrorCode::FrameSizeError);
        }
        pad = b[0] as usize;
        offset = 1;
    }
    if flag_set(h, flags::PRIORITY) {
        if b.len() < offset + 5 {
            return Err(Http2ErrorCode::FrameSizeError);
        }
        offset = offset + 5;
    }
    if offset + pad > b.len() {
        return Err(Http2ErrorCode::ProtocolError);
    }
    Ok(part_bytes(b, offset, b.len() - pad))
}

fn read_settings(b: &[u8]) -> (r: Vec<(SettingId, u32)>)
    requires
        b@.len() % 6 == 0,
    ensures
        r@ == settings_of(b@),
{
    let mut r: Vec<(SettingId, u32)> = Vec::new();
    let mut i: usize = 0;
    while i < b.len()
        invariant
            b@.len() % 6 == 0,
            i <= b@.len(),
            i == 6 * r@.len(),
            forall|j: int| 0 <= j < r@.len() ==> #[trigger] r@[j] == setting_at(b@, j),
        decreases b@.len() - i,
    {
        let id: u16 = ((b[i] as u16) << 8) | (b[i + 1] as u16);
        let value: u32 = read32(b, i + 2);
        r.push((SettingId::from(id), value));
        i = i + 6;
    }
    assert(r@ =~= settings_of(b@));
    r
}

impl Frame {
    /// Reads the payload of a frame whose header is known.
    pub fn parse(header: FrameHeader, payload_bytes: &[u8]) -> (r: Result<Self, Http2ErrorCode>)
        ensures
            match r {
                Ok(f) => f.header == header && payload_of(header, payload_bytes@) == Ok::<
                    _,
                    Http2ErrorCode,
                >(f.payload@),
                Err(e) => payload_of(header, payload_bytes@) == Err::<PayloadView, _>(e),
            },
    {
        let b = payload_bytes;
        let n: usize = b.len();
        if n != header.length as usize {
            return Err(Http2ErrorCode::FrameSizeError);
        }
        let payload = match header.frame_type {
            FrameType::Data => {
                if header.stream_id == 0 {
                    return Err(Http2ErrorCode::ProtocolError);
                }
                match read_data(&header, b) {
                    Ok(data) => FramePayload::Data {
                        data,
                        end_stream: flag_set(&header, flags::END_STREAM),
                    },
                    Err(e) => {
                        return Err(e);
                    },
                }
            },
            FrameType::Headers => {
                if header.stream_id == 0 {
                    return Err(Http2ErrorCode::ProtocolError);
                }
                match read_header_block(&header, b) {
                    Ok(header_block) => FramePayload::Headers {
                        header_block,
                        end_stream: flag_set(&header, flags::END_STREAM),
                        end_headers: flag_set(&header, flags::END_HEADERS),
                    },
                    Err(e) => {
                        return Err(e);
                    },
                }
            },
            FrameType::Priority => {
                if header.stream_id == 0 {
                    return Err(Http2ErrorCode::ProtocolError);
                }
                if n != 5 {
                    return Err(Http2ErrorCode::FrameSizeError);
                }
                let raw: u32 = read32(b, 0);
                FramePayload::Priority {
                    stream_dependency: raw & 0x7fff_ffff,
                    weight: b[4],
                    exclusive: (raw & 0x8000_0000) != 0,
                }
            },
            FrameType::RstStream => {
                if header.stream_id == 0 {
                    return Err(Http2ErrorCode::ProtocolError);
                }
                if n != 4 {
                    return Err(Http2ErrorCode::FrameSizeError);
                }
                FramePayload::RstStream { error_code: Http2ErrorCode::from_u32(read32(b, 0)) }
            },
            FrameType::Settings => {
                if header.stream_id != 0 {
                    return Err(Http2ErrorCode::ProtocolError);
                }
                let ack = flag_set(&header, flags::ACK);
                if ack && n != 0 {
                    return Err(Http2ErrorCode::FrameSizeError);
                }
                if n % 6 != 0 {
                    return Err(Http2ErrorCode::FrameSizeError);
                }
                FramePayload::Settings { settings: read_settings(b), ack }
            },
            FrameType::PushPromise => {
                return Err(Http2ErrorCode::ProtocolError);
            },
            FrameType::Ping => {
                if header.stream_id != 0 {
                    return Err(Http2ErrorCode::ProtocolError);
                }
                if n != 8 {
                    return Err(Http2ErrorCode::FrameSizeError);
                }
                let opaque_data: [u8; 8] = [b[0], b[1], b[2], b[3], b[4], b[5], b[6], b[7]];
                assert(opaque_data@ =~= b@);
                FramePayload::Ping { opaque_data, ack: flag_set(&header, flags::ACK) }
            },
            FrameType::GoAway => {
                if header.stream_id != 0 {
                    return Err(Http2ErrorCode::ProtocolError);
                }
                if n < 8 {
                    return Err(Http2ErrorCode::FrameSizeError);
                }
                let last: u32 = read32(b, 0);
                FramePayload::GoAway {
                    last_stream_id: last & 0x7fff_ffff,
                    error_code: Http2ErrorCode::from_u32(read32(b, 4)),
                    debug_data: part_bytes(b, 8, n),
                }
            },
            FrameType::WindowUpdate => {
                if n != 4 {
                    return Err(Http2ErrorCode::FrameSizeError);
                }
                let raw: u32 = read32(b, 0);
                let window_size_increment: u32 = raw & 0x7fff_ffff;
                if window_size_increment == 0 {
                    return Err(Http2ErrorCode::ProtocolError);
                }
                FramePayload::WindowUpdate { window_size_increment }
            },
            FrameType::Continuation => {
                if header.stream_id == 0 {
                    return Err(Http2ErrorCode::ProtocolError);
                }
                FramePayload::Continuation {
                    header_block: part_bytes_all(b),
                    end_headers: flag_set(&header, flags::END_HEADERS),
                }
            },
            FrameType::Unknown(_) => FramePayload::Unknown { payload: part_bytes_all(b) },
        };
        Ok(Frame { header, payload })
    }

    /// The bytes of the frame.
    pub fn encode(&self) -> (r: Vec<u8>)
        ensures
            r@ == frame_bytes(self@),
    {
        let mut body: Vec<u8> = Vec::new();
        assert(forall|s: Seq<u8>| #[trigger] (Seq::<u8>::empty() + s) =~= s);
        match &self.payload {
            FramePayload::Data { data, .. } => {
                push_bytes(&mut body, data.as_slice());
            },
            FramePayload::Headers { header_block, .. } => {
                push_bytes(&mut body, header_block.as_slice());
            },
            FramePayload::Priority { stream_dependency, weight, exclusive } => {
                let dep: u32 = if *exclusive {
                    *stream_dependency | 0x8000_0000
                } else {
                    *stream_dependency & 0x7fff_ffff
                };
                push32(&mut body, dep);
                body.push(*weight);
            },
            FramePayload::RstStream { error_code } => {
                push32(&mut body, error_code.to_u32());
            },
            FramePayload::Settings { settings, .. } => {
                let mut i: usize = 0;
                assert(settings@.subrange(0, 0) =~= Seq::<(SettingId, u32)>::empty());
                while i < settings.len()
                    invariant
                        i <= settings@.len(),
                        body@ == settings_bytes(settings@.subrange(0, i as int)),
                    decreases settings@.len() - i,
                {
                    assert(settings@.subrange(0, i + 1).drop_last() =~= settings@.subrange(
                        0,
                        i as int,
                    ));
                    push16(&mut body, u16::from(settings[i].0));
                    push32(&mut body, settings[i].1);
                    i = i + 1;
                }
                assert(settings@.subrange(0, settings@.len() as int) =~= settings@);
            },
            FramePayload::PushPromise { promised_stream_id, header_block } => {
                push32(&mut body, *promised_stream_id & 0x7fff_ffff);
                push_bytes(&mut body, header_block.as_slice());
            },
            FramePayload::Ping { opaque_data, .. } => {
                push_bytes(&mut body, opaque_data.as_slice());
            },
            FramePayload::GoAway { last_stream_id, error_code, debug_data } => {
                push32(&mut body, *last_stream_id & 0x7fff_ffff);
                push32(&mut body, error_code.to_u32());
                push_bytes(&mut body, debug_data.as_slice());
            },
            FramePayload::WindowUpdate { window_size_increment } => {
                push32(&mut body, *window_size_increment & 0x7fff_ffff);
            },
            FramePayload::Continuation { header_block, .. } => {
                push_bytes(&mut body, header_block.as_slice());
            },
            FramePayload::Unknown { payload } => {
                push_bytes(&mut body, payload.as_slice());
            },
        }
        assert(body@ =~= payload_bytes(self.payload@));
        let header = FrameHeader {
            length: body.len() as u32,
            frame_type: self.header.frame_type,
            flags: self.header.flags,
            stream_id: self.header.stream_id,
        };
        let mut out: Vec<u8> = Vec::new();
        let head: [u8; 9] = header.encode();
        push_bytes(&mut out, head.as_slice());
        push_bytes(&mut out, body.as_slice());
        out
    }
}

} // verus!
