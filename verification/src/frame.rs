//! The frame codec: where a frame ends in a buffer, which of the two wire
//! formats it is in, what request it carries, and how a reply is framed.
//!
//! An MC4E request is the subheader `50 00`, a serial number, two reserved
//! bytes, the access route, the data length, the monitoring timer and the
//! body: 15 bytes of header. An MC3E request has no subheader and no serial
//! number: access route, data length, monitoring timer and body, 9 bytes of
//! header. All 16-bit fields are low byte first, and the data length counts
//! the body and two bytes more.

use vstd::prelude::*;
use vstd::slice::slice_subrange;

verus! {

/// The two wire formats. MC4E frames carry a serial number behind a fixed
/// subheader; MC3E frames carry none.
#[derive(Debug, Clone, Copy, PartialEq, Eq, Structural)]
pub enum McFrameFormat {
    MC4E,
    MC3E,
}

/// The five-byte route to the addressed module.
#[derive(Debug, Clone, Copy, PartialEq, Eq, Structural)]
pub struct AccessRoute {
    pub network_number: u8,
    pub pc_number: u8,
    pub io_number: u16,
    pub station_number: u8,
}

/// A request as it arrived: the envelope fields and the request body. The
/// serial number is there exactly for a request that came in MC4E.
#[derive(Debug)]
pub struct McRequest {
    pub access_route: AccessRoute,
    pub serial_number: Option<u16>,
    pub monitoring_timer: u16,
    pub request_data: Vec<u8>,
}

/// Why a buffer or a frame was refused.
#[derive(Debug, Clone, Copy, PartialEq, Eq, Structural)]
pub enum FrameError {
    /// The declared data length is below 2.
    InvalidDataLen,
    /// The bytes are too few for the header of a request.
    ParseFailure,
}

impl FrameError {
    /// The name of the error.
    pub open spec fn spec_kind(self) -> Seq<char> {
        match self {
            FrameError::InvalidDataLen => "invalid_data_len"@,
            FrameError::ParseFailure => "parse_failure"@,
        }
    }

    /// The name of the error, for a log.
    pub fn kind(&self) -> (name: &'static str)
        ensures
            name@ == self.spec_kind(),
    {
        match self {
            FrameError::InvalidDataLen => "invalid_data_len",
            FrameError::ParseFailure => "parse_failure",
        }
    }
}

/// The end code of a reply to a request that was served.
pub const END_CODE_OK: u16 = 0x0000;

/// The end code of a reply to bytes that could not be framed or parsed.
pub const END_CODE_ERROR: u16 = 0x0050;

/// The length of an MC4E header.
pub const MC4E_HEADER_LEN: usize = 15;

/// The length of an MC3E header.
pub const MC3E_HEADER_LEN: usize = 9;

/// The 16-bit value of two bytes, low byte first.
pub open spec fn le16(low: u8, high: u8) -> u16 {
    (low + 256 * high) as u16
}

/// The two bytes of a 16-bit value, low byte first.
pub open spec fn le_bytes(value: u16) -> Seq<u8> {
    seq![(value % 256) as u8, (value / 256) as u8]
}

/// Whether the bytes open with an MC4E subheader: `50 00` of a request or
/// `D0 00` of a response.
pub open spec fn opens_mc4e(buf: Seq<u8>) -> bool {
    buf.len() >= 2 && (buf[0] == 0x50 || buf[0] == 0xD0) && buf[1] == 0x00
}

/// The length of the header that the bytes open: 15 for MC4E, 9 for MC3E.
pub open spec fn header_len(buf: Seq<u8>) -> nat {
    if opens_mc4e(buf) {
        15
    } else {
        9
    }
}

/// The data length that a complete header declares: the two bytes behind
/// the access route.
pub open spec fn declared_len(buf: Seq<u8>) -> u16 {
    if opens_mc4e(buf) {
        le16(buf[11], buf[12])
    } else {
        le16(buf[5], buf[6])
    }
}

/// The serial number of a complete header: that of an MC4E header, none for
/// MC3E.
pub open spec fn header_serial(buf: Seq<u8>) -> Option<u16> {
    if opens_mc4e(buf) {
        Some(le16(buf[2], buf[3]))
    } else {
        None
    }
}

/// What a buffer holds at its front.
pub enum Detection {
    /// The header is not complete yet.
    NeedMore,
    /// A header was read; the frame it announces may still be incomplete.
    Frame { frame_len: nat, header_len: nat, serial: Option<u16> },
    /// A header that declares a data length below 2.
    Invalid,
}

/// Frame boundary detection. Until the buffer holds a whole header nothing
/// is known. A whole header announces a frame of its own length and `data
/// length - 2` bytes of body, and is refused where it declares a data
/// length below 2.
pub open spec fn detect(buf: Seq<u8>) -> Detection {
    if buf.len() < header_len(buf) {
        Detection::NeedMore
    } else if declared_len(buf) < 2 {
        Detection::Invalid
    } else {
        Detection::Frame {
            frame_len: (header_len(buf) + declared_len(buf) - 2) as nat,
            header_len: header_len(buf),
            serial: header_serial(buf),
        }
    }
}

impl AccessRoute {
    /// The route on the wire: network, PC, I/O number low byte first, station.
    pub open spec fn bytes(self) -> Seq<u8> {
        seq![self.network_number, self.pc_number]
            + le_bytes(self.io_number) + seq![
            self.station_number,
        ]
    }

    /// The route that five wire bytes denote.
    pub open spec fn from_bytes(route: Seq<u8>) -> AccessRoute {
        AccessRoute {
            network_number: route[0],
            pc_number: route[1],
            io_number: le16(route[2], route[3]),
            station_number: route[4],
        }
    }

    /// The route to the own station: network 0, PC 0xFF, I/O 0x03FF, station 0.
    pub open spec fn spec_default() -> AccessRoute {
        AccessRoute { network_number: 0x00, pc_number: 0xFF, io_number: 0x03FF, station_number: 0x00 }
    }

    /// The five bytes of the route on the wire.
    pub fn to_bytes(&self) -> (out: [u8; 5])
        ensures
            out@ == self.bytes(),
    {
        let out = [
            self.network_number,
            self.pc_number,
            (self.io_number % 256) as u8,
            (self.io_number / 256) as u8,
            self.station_number,
        ];
        assert(out@ =~= self.bytes());
        out
    }
}

impl Default for AccessRoute {
    fn default() -> (route: AccessRoute)
        ensures
            route == AccessRoute::spec_default(),
    {
        AccessRoute { network_number: 0x00, pc_number: 0xFF, io_number: 0x03FF, station_number: 0x00 }
    }
}

/// A request as contracts see it.
pub struct RequestView {
    pub access_route: AccessRoute,
    pub serial_number: Option<u16>,
    pub monitoring_timer: u16,
    pub request_data: Seq<u8>,
}

impl View for McRequest {
    type V = RequestView;

    open spec fn view(&self) -> RequestView {
        RequestView {
            access_route: self.access_route,
            serial_number: self.serial_number,
            monitoring_timer: self.monitoring_timer,
            request_data: self.request_data@,
        }
    }
}

/// The body behind a header of `header` bytes that declares `data_len`:
/// `data_len - 2` bytes, or what the payload has of them.
pub open spec fn body_of(payload: Seq<u8>, header: int, data_len: u16) -> Seq<u8> {
    let end = if payload.len() < header + data_len - 2 {
        payload.len() as int
    } else {
        header + data_len - 2
    };
    payload.subrange(header, end)
}

/// The request that a payload with a whole header and a data length of at
/// least 2 carries: the route in the five bytes before the data length, the
/// monitoring timer in the two bytes behind it, the body behind the header,
/// and for MC4E the serial number behind the subheader.
pub open spec fn request_of(payload: Seq<u8>) -> RequestView {
    if opens_mc4e(payload) {
        RequestView {
            access_route: AccessRoute::from_bytes(payload.subrange(6, 11)),
            serial_number: Some(le16(payload[2], payload[3])),
            monitoring_timer: le16(payload[13], payload[14]),
            request_data: body_of(payload, 15, le16(payload[11], payload[12])),
        }
    } else {
        RequestView {
            access_route: AccessRoute::from_bytes(payload.subrange(0, 5)),
            serial_number: None,
            monitoring_timer: le16(payload[7], payload[8]),
            request_data: body_of(payload, 9, le16(payload[5], payload[6])),
        }
    }
}

/// The request that a payload carries, or why it carries none: too few
/// bytes for its header, or a data length below 2.
pub open spec fn parse_request(payload: Seq<u8>) -> Result<RequestView, FrameError> {
    if payload.len() < header_len(payload) {
        Err(FrameError::ParseFailure)
    } else if declared_len(payload) < 2 {
        Err(FrameError::InvalidDataLen)
    } else {
        Ok(request_of(payload))
    }
}

fn read_le16(buf: &[u8], at: usize) -> (value: u16)
    requires
        at + 1 < buf@.len(),
    ensures
        value == le16(buf@[at as int], buf@[at + 1]),
{
    buf[at] as u16 + 256 * (buf[at + 1] as u16)
}

/// Whether the bytes open with an MC4E subheader.
pub fn has_mc4e_subheader(buf: &[u8]) -> (opens: bool)
    ensures
        opens == opens_mc4e(buf@),
{
    buf.len() >= 2 && (buf[0] == 0x50 || buf[0] == 0xD0) && buf[1] == 0x00
}

/// Looks for a frame at the front of `buf`: `Ok(None)` while more bytes are
/// needed for a header, the frame length, header length and serial number
/// once the header is there, and an error for a header that declares a data
/// length below 2. The frame itself may still be incomplete: compare the
/// frame length with the buffer.
pub fn detect_frame(buf: &[u8]) -> (found: Result<Option<(usize, usize, Option<u16>)>, FrameError>)
    ensures
        match detect(buf@) {
            Detection::NeedMore => found matches Ok(None),
            Detection::Frame { frame_len, header_len, serial } => found matches Ok(Some(got))
                && got.0 == frame_len && got.1 == header_len && got.2 == serial,
            Detection::Invalid => found matches Err(FrameError::InvalidDataLen),
        },
{
    let mc4e = has_mc4e_subheader(buf);
    let header: usize = if mc4e {
        MC4E_HEADER_LEN
    } else {
        MC3E_HEADER_LEN
    };
    if buf.len() < header {
        return Ok(None);
    }
    let data_len: u16 = read_le16(buf, header - 4);
    if data_len < 2 {
        return Err(FrameError::InvalidDataLen);
    }
    let serial: Option<u16> = if mc4e {
        Some(read_le16(buf, 2))
    } else {
        None
    };
    Ok(Some((header + (data_len as usize - 2), header, serial)))
}

impl McRequest {
    /// The request that a received frame carries.
    pub fn try_from_payload(payload: &[u8]) -> (parsed: Result<McRequest, FrameError>)
        ensures
            match parse_request(payload@) {
                Ok(view) => parsed matches Ok(request) && request@ == view,
                Err(error) => parsed matches Err(refused) && refused == error,
            },
    {
        let mc4e = has_mc4e_subheader(payload);
        let header: usize = if mc4e {
            MC4E_HEADER_LEN
        } else {
            MC3E_HEADER_LEN
        };
        if payload.len() < header {
            return Err(FrameError::ParseFailure);
        }
        let data_len: u16 = read_le16(payload, header - 4);
        if data_len < 2 {
            return Err(FrameError::InvalidDataLen);
        }
        let route = slice_subrange(payload, header - 9, header - 4);
        let access_route = AccessRoute {
            network_number: route[0],
            pc_number: route[1],
            io_number: route[2] as u16 + 256 * (route[3] as u16),
            station_number: route[4],
        };
        let wanted: usize = data_len as usize - 2;
        let end: usize = if payload.len() - header < wanted {
            payload.len()
        } else {
            header + wanted
        };
        let body = slice_subrange(payload, header, end);
        let mut request_data: Vec<u8> = Vec::new();
        append_bytes(&mut request_data, body);
        assert(request_data@ =~= body_of(payload@, header as int, data_len));
        Ok(
            McRequest {
                access_route,
                serial_number: if mc4e {
                    Some(read_le16(payload, 2))
                } else {
                    None
                },
                monitoring_timer: read_le16(payload, header - 2),
                request_data,
            },
        )
    }
}

/// The format of a received frame: MC4E where it opens with an MC4E
/// subheader, which is also where a parse of it finds a serial number; MC3E
/// otherwise.
pub open spec fn frame_format(frame: Seq<u8>) -> McFrameFormat {
    if opens_mc4e(frame) {
        McFrameFormat::MC4E
    } else {
        McFrameFormat::MC3E
    }
}

/// Tells the format of a received frame, so that the reply can match it.
pub fn detect_format_from_frame(frame: &[u8]) -> (format: McFrameFormat)
    ensures
        format == frame_format(frame@),
{
    if has_mc4e_subheader(frame) {
        McFrameFormat::MC4E
    } else {
        McFrameFormat::MC3E
    }
}

/// The data length that a reply declares: payload and end code, or 2 where
/// that does not fit in 16 bits.
pub open spec fn response_data_len(payload_len: nat) -> u16 {
    if payload_len + 2 <= 0xFFFF {
        (payload_len + 2) as u16
    } else {
        2
    }
}

/// A reply on the wire. MC4E: subheader `D0 00`, serial, two reserved zero
/// bytes, route, data length, end code, payload. MC3E: the sentinel `D0 00`,
/// route, data length, end code, payload.
pub open spec fn response_frame(
    format: McFrameFormat,
    serial: u16,
    route: AccessRoute,
    end_code: u16,
    payload: Seq<u8>,
) -> Seq<u8> {
    match format {
        McFrameFormat::MC4E => seq![0xD0u8, 0x00u8] + le_bytes(serial) + seq![0x00u8, 0x00u8]
            + route.bytes() + le_bytes(response_data_len(payload.len())) + le_bytes(end_code)
            + payload,
        McFrameFormat::MC3E => seq![0xD0u8, 0x00u8] + route.bytes() + le_bytes(
            response_data_len(payload.len()),
        ) + le_bytes(end_code) + payload,
    }
}

/// The serial number that a reply repeats: that of the request, 0 where it
/// has none.
pub open spec fn reply_serial(serial: Option<u16>) -> u16 {
    match serial {
        Some(number) => number,
        None => 0,
    }
}

fn push_le16(out: &mut Vec<u8>, value: u16)
    ensures
        final(out)@ == old(out)@ + le_bytes(value),
{
    out.push((value % 256) as u8);
    out.push((value / 256) as u8);
    assert(out@ =~= old(out)@ + le_bytes(value));
}

fn append_bytes(out: &mut Vec<u8>, bytes: &[u8])
    ensures
        final(out)@ == old(out)@ + bytes@,
{
    let mut i: usize = 0;
    while i < bytes.len()
        invariant
            i <= bytes@.len(),
            out@ == old(out)@ + bytes@.subrange(0, i as int),
        decreases bytes@.len() - i,
    {
        out.push(bytes[i]);
        assert(out@ =~= old(out)@ + bytes@.subrange(0, i + 1));
        i += 1;
    }
    assert(bytes@.subrange(0, i as int) =~= bytes@);
}

fn build_response(
    format: McFrameFormat,
    serial: u16,
    route: &AccessRoute,
    end_code: u16,
    payload: &[u8],
) -> (out: Vec<u8>)
    ensures
        out@ == response_frame(format, serial, *route, end_code, payload@),
{
    let mut out: Vec<u8> = Vec::new();
    let data_len: u16 = if payload.len() <= 0xFFFD {
        (payload.len() + 2) as u16
    } else {
        2
    };
    let route_bytes = route.to_bytes();
    out.push(0xD0);
    out.push(0x00);
    match format {
        McFrameFormat::MC4E => {
            push_le16(&mut out, serial);
            push_le16(&mut out, 0);
            assert(le_bytes(0) =~= seq![0x00u8, 0x00u8]);
        },
        McFrameFormat::MC3E => {},
    }
    append_bytes(&mut out, route_bytes.as_slice());
    push_le16(&mut out, data_len);
    push_le16(&mut out, end_code);
    append_bytes(&mut out, payload);
    assert(out@ =~= response_frame(format, serial, *route, end_code, payload@));
    out
}

/// Frames the reply to a served request: the request's serial number and
/// route, end code 0 and the payload, in the given format.
pub fn build_mc_response_from_request(
    req: &McRequest,
    resp_data: &[u8],
    format: McFrameFormat,
) -> (out: Vec<u8>)
    ensures
        out@ == response_frame(
            format,
            reply_serial(req.serial_number),
            req.access_route,
            END_CODE_OK,
            resp_data@,
        ),
{
    let serial: u16 = match req.serial_number {
        Some(number) => number,
        None => 0,
    };
    build_response(format, serial, &req.access_route, END_CODE_OK, resp_data)
}

/// The reply to bytes that could not be framed or parsed, or whose request
/// was refused: end code 0x0050, the default route and no payload. Bytes
/// that open with an MC4E subheader get an MC4E reply that repeats their
/// serial number (0 where they are too short to hold one); all others get
/// an MC3E reply.
pub open spec fn error_frame(received: Seq<u8>) -> Seq<u8> {
    if opens_mc4e(received) {
        response_frame(
            McFrameFormat::MC4E,
            if received.len() >= 4 {
                le16(received[2], received[3])
            } else {
                0
            },
            AccessRoute::spec_default(),
            END_CODE_ERROR,
            Seq::empty(),
        )
    } else {
        response_frame(
            McFrameFormat::MC3E,
            0,
            AccessRoute::spec_default(),
            END_CODE_ERROR,
            Seq::empty(),
        )
    }
}

/// Frames the error reply to `received`.
pub fn build_error_response(received: &[u8]) -> (out: Vec<u8>)
    ensures
        out@ == error_frame(received@),
{
    let route = AccessRoute::default();
    let payload: Vec<u8> = Vec::new();
    if has_mc4e_subheader(received) {
        let serial: u16 = if received.len() >= 4 {
            read_le16(received, 2)
        } else {
            0
        };
        build_response(McFrameFormat::MC4E, serial, &route, END_CODE_ERROR, payload.as_slice())
    } else {
        build_response(McFrameFormat::MC3E, 0, &route, END_CODE_ERROR, payload.as_slice())
    }
}

/// An MC4E request on the wire: subheader `50 00`, serial, two reserved zero
/// bytes, route, data length (body plus 2), monitoring timer, body.
pub open spec fn mc4e_request_frame(
    serial: u16,
    route: AccessRoute,
    timer: u16,
    body: Seq<u8>,
) -> Seq<u8> {
    seq![0x50u8, 0x00u8] + le_bytes(serial) + seq![0x00u8, 0x00u8] + route.bytes() + le_bytes(
        (body.len() + 2) as u16,
    ) + le_bytes(timer) + body
}

/// An MC3E request on the wire: route, data length (body plus 2), monitoring
/// timer, body.
pub open spec fn mc3e_request_frame(route: AccessRoute, timer: u16, body: Seq<u8>) -> Seq<u8> {
    route.bytes() + le_bytes((body.len() + 2) as u16) + le_bytes(timer) + body
}

/// Whether a route, at the front of a frame, reads as an MC4E subheader:
/// network number `50` or `D0` and PC number 0.
pub open spec fn route_reads_as_subheader(route: AccessRoute) -> bool {
    (route.network_number == 0x50 || route.network_number == 0xD0) && route.pc_number == 0x00
}

/// Frame round trip, MC4E: a buffer that holds exactly one MC4E request is
/// detected as one frame of the buffer's length, is told MC4E, and parses to
/// the request's serial number, route, timer and body.
pub proof fn lemma_mc4e_request_round_trip(
    serial: u16,
    route: AccessRoute,
    timer: u16,
    body: Seq<u8>,
)
    requires
        body.len() + 2 <= 0xFFFF,
    ensures
        detect(mc4e_request_frame(serial, route, timer, body)) == (Detection::Frame {
            frame_len: mc4e_request_frame(serial, route, timer, body).len(),
            header_len: 15,
            serial: Some(serial),
        }),
        frame_format(mc4e_request_frame(serial, route, timer, body)) == McFrameFormat::MC4E,
        parse_request(mc4e_request_frame(serial, route, timer, body)) == Ok::<
            RequestView,
            FrameError,
        >(
            RequestView {
                access_route: route,
                serial_number: Some(serial),
                monitoring_timer: timer,
                request_data: body,
            },
        ),
{
    let frame = mc4e_request_frame(serial, route, timer, body);
    assert(frame.len() == 15 + body.len());
    assert(frame[0] == 0x50 && frame[1] == 0x00);
    assert(frame[2] == le_bytes(serial)[0] && frame[3] == le_bytes(serial)[1]);
    assert(frame[11] == le_bytes((body.len() + 2) as u16)[0]);
    assert(frame[12] == le_bytes((body.len() + 2) as u16)[1]);
    assert(frame[13] == le_bytes(timer)[0] && frame[14] == le_bytes(timer)[1]);
    assert(frame.subrange(6, 11) =~= route.bytes());
    assert(body_of(frame, 15, (body.len() + 2) as u16) =~= body);
}

/// Frame round trip, MC3E: a buffer that holds exactly one MC3E request is
/// detected as one frame of the buffer's length, is told MC3E, and parses to
/// the request's route, timer and body. An MC3E request has no subheader, so
/// one whose route reads as an MC4E subheader cannot be told from MC4E: the
/// law leaves those routes out.
pub proof fn lemma_mc3e_request_round_trip(route: AccessRoute, timer: u16, body: Seq<u8>)
    requires
        body.len() + 2 <= 0xFFFF,
        !route_reads_as_subheader(route),
    ensures
        detect(mc3e_request_frame(route, timer, body)) == (Detection::Frame {
            frame_len: mc3e_request_frame(route, timer, body).len(),
            header_len: 9,
            serial: None,
        }),
        frame_format(mc3e_request_frame(route, timer, body)) == McFrameFormat::MC3E,
        parse_request(mc3e_request_frame(route, timer, body)) == Ok::<RequestView, FrameError>(
            RequestView {
                access_route: route,
                serial_number: None,
                monitoring_timer: timer,
                request_data: body,
            },
        ),
{
    let frame = mc3e_request_frame(route, timer, body);
    assert(frame.len() == 9 + body.len());
    assert(frame[0] == route.network_number && frame[1] == route.pc_number);
    assert(frame[5] == le_bytes((body.len() + 2) as u16)[0]);
    assert(frame[6] == le_bytes((body.len() + 2) as u16)[1]);
    assert(frame[7] == le_bytes(timer)[0] && frame[8] == le_bytes(timer)[1]);
    assert(frame.subrange(0, 5) =~= route.bytes());
    assert(body_of(frame, 9, (body.len() + 2) as u16) =~= body);
}

/// A parse finds a serial number exactly in a frame that is told MC4E.
pub proof fn lemma_serial_tells_mc4e(frame: Seq<u8>)
    ensures
        parse_request(frame) matches Ok(request) ==> (request.serial_number is Some
            <==> frame_format(frame) == McFrameFormat::MC4E),
{
}

/// The front of a frame never reads as a frame of its own: a buffer that
/// holds less than a whole frame is detected as incomplete, whatever the
/// cut.
pub proof fn lemma_front_of_frame_is_incomplete(frame: Seq<u8>, cut: int)
    requires
        0 <= cut < frame.len(),
        detect(frame) matches Detection::Frame { frame_len, .. } && frame_len == frame.len(),
    ensures
        match detect(frame.subrange(0, cut)) {
            Detection::NeedMore => true,
            Detection::Frame { frame_len, .. } => frame_len == frame.len(),
            Detection::Invalid => false,
        },
{
    let front = frame.subrange(0, cut);
    if cut >= 2 {
        assert(front[0] == frame[0] && front[1] == frame[1]);
        assert(opens_mc4e(front) == opens_mc4e(frame));
        if cut >= header_len(frame) {
            assert(front[5] == frame[5] && front[6] == frame[6]);
            if opens_mc4e(frame) {
                assert(front[11] == frame[11] && front[12] == frame[12]);
                assert(front[2] == frame[2] && front[3] == frame[3]);
            }
        }
    }
}

} // verus!
