//! The server facade and the decisions of its listeners: what to do with the
//! bytes that a connection has accumulated, and how to answer a datagram.

use crate::device_key::{
    canonical_key, lemma_canonical_key_resolves, normalize_key_addr, resolve, KeyLookup,
};
use crate::assignment::{lookups_for, seeded, seeds_of};
use crate::device_map::{read_words, write_words, Areas, DeviceMap, Word};
use crate::frame::{
    build_error_response, build_mc_response_from_request, detect, detect_format_from_frame,
    detect_frame, error_frame, frame_format, lemma_front_of_frame_is_incomplete, parse_request,
    reply_serial, response_frame, Detection, FrameError, McFrameFormat, McRequest, END_CODE_OK,
};
use crate::handler::{
    dispatch, dispatch_request, found_for, found_view, request_command, wanted_descriptor,
    HandlerError,
};
use crate::registry::{lookup_command, CommandDescriptor, CommandView};
use crate::text::{chars_of, parse_number, parse_number_text};
use vstd::prelude::*;
use vstd::slice::slice_subrange;
use vstd::string::*;

verus! {

/// The idle timeout of a connection, in milliseconds, where none is
/// configured.
pub const DEFAULT_TIM_AWAIT_MS: u64 = 3000;

/// The idle timeout that a configured text denotes: its value where it is an
/// unsigned decimal number of at most 64 bits, else the default.
pub open spec fn tim_await_of(configured: Option<Seq<char>>) -> u64 {
    match configured {
        Some(text) => match parse_number(text, 10, u64::MAX) {
            Some(ms) => ms,
            None => DEFAULT_TIM_AWAIT_MS,
        },
        None => DEFAULT_TIM_AWAIT_MS,
    }
}

/// The view of an optional text.
pub open spec fn text_view(text: Option<&str>) -> Option<Seq<char>> {
    match text {
        Some(text) => Some(text@),
        None => None,
    }
}

/// The idle timeout of a connection, from the configured text if there is
/// one.
pub fn tim_await_ms(configured: Option<&str>) -> (ms: u64)
    ensures
        ms == tim_await_of(text_view(configured)),
{
    match configured {
        Some(text) => {
            let chars = chars_of(text);
            match parse_number_text(chars.as_slice(), false, u64::MAX) {
                Some(ms) => ms,
                None => DEFAULT_TIM_AWAIT_MS,
            }
        },
        None => DEFAULT_TIM_AWAIT_MS,
    }
}

/// Why received bytes were refused.
#[derive(Debug, Clone, Copy, PartialEq, Eq, Structural)]
pub enum Refusal {
    /// The bytes are no frame, or the frame holds no request.
    Frame(FrameError),
    /// The handler refused the request.
    Handler(HandlerError),
}

/// What a listener does next.
#[derive(Debug)]
pub enum Step {
    /// Nothing can be answered yet: read on.
    NeedMore,
    /// A request was served: send the reply and go on with the buffer.
    Reply(Vec<u8>),
    /// The bytes were refused: send the error reply, then reset the
    /// connection.
    Close(Vec<u8>, Refusal),
}

/// A step as contracts see it.
pub enum StepView {
    NeedMore,
    Reply(Seq<u8>),
    Close(Seq<u8>, Refusal),
}

impl View for Step {
    type V = StepView;

    open spec fn view(&self) -> StepView {
        match self {
            Step::NeedMore => StepView::NeedMore,
            Step::Reply(bytes) => StepView::Reply(bytes@),
            Step::Close(bytes, refusal) => StepView::Close(bytes@, *refusal),
        }
    }
}

/// The store, the buffer and the step after one decision.
pub struct StepOutcome {
    pub areas: Areas,
    pub buffer: Seq<u8>,
    pub step: StepView,
}

/// What one complete frame results in: the store after it, and the reply. A
/// frame that parses to a request which the handler serves gets a reply in
/// the frame's own format, with the request's serial number and route and
/// end code 0. A frame that does not parse, or whose request the handler
/// refuses, leaves the store as it was and gets the error reply.
pub open spec fn serve_frame(areas: Areas, frame: Seq<u8>, found: Option<CommandView>) -> (
    Areas,
    StepView,
) {
    match parse_request(frame) {
        Err(error) => (areas, StepView::Close(error_frame(frame), Refusal::Frame(error))),
        Ok(request) => {
            let outcome = dispatch(areas, request.request_data, found);
            match outcome.reply {
                Ok(payload) => (
                    outcome.areas,
                    StepView::Reply(
                        response_frame(
                            frame_format(frame),
                            reply_serial(request.serial_number),
                            request.access_route,
                            END_CODE_OK,
                            payload,
                        ),
                    ),
                ),
                Err(error) => (
                    areas,
                    StepView::Close(error_frame(frame), Refusal::Handler(error)),
                ),
            }
        },
    }
}

/// One decision on the accumulated bytes of a connection. While no complete
/// frame is at the front of the buffer, nothing changes. A malformed header
/// gets the error reply. A complete frame is taken off the buffer, exactly
/// as long as its header says, and served; what follows it stays.
pub open spec fn step(areas: Areas, buffer: Seq<u8>, found: Option<CommandView>) -> StepOutcome {
    match detect(buffer) {
        Detection::NeedMore => StepOutcome { areas, buffer, step: StepView::NeedMore },
        Detection::Invalid => StepOutcome {
            areas,
            buffer,
            step: StepView::Close(
                error_frame(buffer),
                Refusal::Frame(FrameError::InvalidDataLen),
            ),
        },
        Detection::Frame { frame_len, header_len, serial } => if buffer.len() < frame_len {
            StepOutcome { areas, buffer, step: StepView::NeedMore }
        } else {
            let served = serve_frame(areas, buffer.subrange(0, frame_len as int), found);
            StepOutcome { areas: served.0, buffer: buffer.skip(frame_len as int), step: served.1 }
        },
    }
}

/// The command and subcommand for which a frame's request needs a
/// descriptor: none where the frame holds no request, or its request needs
/// none.
pub open spec fn wanted_command(frame: Seq<u8>) -> Option<(u16, u16)> {
    match parse_request(frame) {
        Ok(request) => wanted_descriptor(request.request_data),
        Err(_) => None,
    }
}

/// The command and subcommand for which the frame at the front of a buffer
/// needs a descriptor: none where no complete frame is there.
pub open spec fn wanted_at_front(buffer: Seq<u8>) -> Option<(u16, u16)> {
    match detect(buffer) {
        Detection::Frame { frame_len, header_len, serial } => if buffer.len() < frame_len {
            None
        } else {
            wanted_command(buffer.subrange(0, frame_len as int))
        },
        _ => None,
    }
}

/// Serves one complete frame, given the descriptor of its command.
pub fn serve_frame_with(store: &mut DeviceMap, frame: &[u8], found: Option<&CommandDescriptor>) -> (next:
    Step)
    ensures
        final(store)@ == serve_frame(old(store)@, frame@, found_view(found)).0,
        next@ == serve_frame(old(store)@, frame@, found_view(found)).1,
        !(next is NeedMore),
{
    match McRequest::try_from_payload(frame) {
        Ok(request) => {
            match dispatch_request(store, request.request_data.as_slice(), found) {
                Ok(payload) => {
                    let format = detect_format_from_frame(frame);
                    Step::Reply(build_mc_response_from_request(&request, payload.as_slice(), format))
                },
                Err(error) => Step::Close(build_error_response(frame), Refusal::Handler(error)),
            }
        },
        Err(error) => Step::Close(build_error_response(frame), Refusal::Frame(error)),
    }
}

/// Decides on the accumulated bytes of a connection, given the descriptor to
/// serve a complete frame with. A served or refused frame is taken off the
/// front of `acc`.
pub fn step_with(store: &mut DeviceMap, acc: &mut Vec<u8>, found: Option<&CommandDescriptor>) -> (next:
    Step)
    ensures
        final(store)@ == step(old(store)@, old(acc)@, found_view(found)).areas,
        final(acc)@ == step(old(store)@, old(acc)@, found_view(found)).buffer,
        next@ == step(old(store)@, old(acc)@, found_view(found)).step,
{
    match detect_frame(acc.as_slice()) {
        Ok(Some((frame_len, _, _))) => {
            if acc.len() < frame_len {
                return Step::NeedMore;
            }
            let rest = acc.split_off(frame_len);
            let next = serve_frame_with(store, acc.as_slice(), found);
            *acc = rest;
            assert(acc@ =~= old(acc)@.skip(frame_len as int));
            next
        },
        Ok(None) => Step::NeedMore,
        Err(error) => Step::Close(build_error_response(acc.as_slice()), Refusal::Frame(error)),
    }
}

/// The command for which the frame at the front of the buffer needs a
/// descriptor, if a complete frame is there and needs one.
pub fn peek_command(acc: &[u8]) -> (wanted: Option<(u16, u16)>)
    ensures
        wanted == wanted_at_front(acc@),
{
    match detect_frame(acc) {
        Ok(Some((frame_len, _, _))) => {
            if acc.len() < frame_len {
                return None;
            }
            frame_command(slice_subrange(acc, 0, frame_len))
        },
        _ => None,
    }
}

/// The command for which a frame's request needs a descriptor.
pub fn frame_command(frame: &[u8]) -> (wanted: Option<(u16, u16)>)
    ensures
        wanted == wanted_command(frame@),
{
    match McRequest::try_from_payload(frame) {
        Ok(request) => request_command(request.request_data.as_slice()),
        Err(_) => None,
    }
}

/// The code and address of a key that is resolved, written as the canonical
/// key of its code and resolved again.
pub open spec fn twice_resolved(
    first: KeyLookup,
    second: KeyLookup,
    key: Seq<char>,
    addr: usize,
) -> (u8, usize) {
    resolve(second, canonical_key(resolve(first, key, addr).0), resolve(first, key, addr).1)
}

/// Whether `first` can be what the tables say of the key and `second` what
/// they say of the canonical key of its code.
pub open spec fn answer_twice(
    first: KeyLookup,
    second: KeyLookup,
    key: Seq<char>,
    addr: usize,
) -> bool {
    first.answers(key) && second.answers(canonical_key(resolve(first, key, addr).0))
}

/// Normalization is idempotent: resolving a key twice gives what resolving
/// it once gives, unless an override is registered under the canonical key
/// itself. Of the canonical key the device tables know nothing, as it begins
/// with a digit.
pub proof fn lemma_normalization_idempotent(
    first: KeyLookup,
    second: KeyLookup,
    key: Seq<char>,
    addr: usize,
)
    requires
        answer_twice(first, second, key, addr),
        !(second.override_code matches Some(code) && code <= 255),
    ensures
        twice_resolved(first, second, key, addr) == resolve(first, key, addr),
{
    let once = resolve(first, key, addr);
    lemma_canonical_key_resolves(once.0, once.1);
}

/// A buffer that holds only the front of a frame waits, whatever the cut:
/// the store and the buffer stay as they are and nothing is sent. Once the
/// buffer holds the whole frame, the frame is taken off and served.
pub proof fn lemma_partial_frame_waits(
    areas: Areas,
    frame: Seq<u8>,
    cut: int,
    found: Option<CommandView>,
)
    requires
        0 <= cut < frame.len(),
        detect(frame) matches Detection::Frame { frame_len, .. } && frame_len == frame.len(),
    ensures
        step(areas, frame.subrange(0, cut), found) == (StepOutcome {
            areas,
            buffer: frame.subrange(0, cut),
            step: StepView::NeedMore,
        }),
        step(areas, frame, found) == (StepOutcome {
            areas: serve_frame(areas, frame, found).0,
            buffer: Seq::empty(),
            step: serve_frame(areas, frame, found).1,
        }),
{
    lemma_front_of_frame_is_incomplete(frame, cut);
    assert(frame.subrange(0, frame.len() as int) =~= frame);
    assert(frame.skip(frame.len() as int) =~= Seq::<u8>::empty());
}

/// Mock server: the device store that its listeners share.
pub struct MockServer {
    pub store: DeviceMap,
}

impl MockServer {
    /// A server over an empty store.
    pub fn new() -> (server: MockServer)
        ensures
            server.store@ == Map::<u8, Seq<Word>>::empty(),
    {
        MockServer { store: DeviceMap::new() }
    }

    /// A server over the store of a snapshot, if there is one, and seeded
    /// from an assignment text where there is no snapshot or it holds no
    /// area.
    pub fn new_with_assignment(snapshot: Option<DeviceMap>, assignment: Option<&str>) -> (server:
        MockServer)
        ensures
            match snapshot {
                Some(kept) if kept@ != Map::<u8, Seq<Word>>::empty() => server.store@ == kept@,
                _ => match assignment {
                    Some(text) => exists|lookups: Seq<KeyLookup>|
                        lookups_for(seeds_of(text@), lookups) && server.store@ == #[trigger] seeded(
                            Map::<u8, Seq<Word>>::empty(),
                            seeds_of(text@),
                            lookups,
                        ),
                    None => server.store@ == Map::<u8, Seq<Word>>::empty(),
                },
            },
    {
        let mut store = match snapshot {
            Some(kept) => kept,
            None => DeviceMap::new(),
        };
        if store.is_empty() {
            match assignment {
                Some(text) => {
                    store.populate_from_toml(text);
                },
                None => {},
            }
        }
        MockServer { store }
    }

    /// Tells the format of a received frame.
    pub fn detect_format_from_frame(frame: &[u8]) -> (format: McFrameFormat)
        ensures
            format == frame_format(frame@),
    {
        detect_format_from_frame(frame)
    }

    /// Frames the reply to a served request.
    pub fn build_mc_response_from_request(
        req: &McRequest,
        resp_data: &[u8],
        format: McFrameFormat,
    ) -> (out: Vec<u8>)
        ensures
            out@ == response_frame(
                format,
                reply_serial(req.serial_number),
                req.access_route,
                END_CODE_OK,
                resp_data@,
            ),
    {
        build_mc_response_from_request(req, resp_data, format)
    }

    /// Writes words under a key as callers write it. The key is normalized
    /// here and, in its canonical form, once more by the store.
    pub fn set_words(&mut self, key: &str, addr: usize, words: &[Word])
        requires
            addr + words@.len() <= usize::MAX,
            0xFF_FFFF + words@.len() <= usize::MAX,
        ensures
            exists|first: KeyLookup, second: KeyLookup|
                answer_twice(first, second, key@, addr) && final(self).store@ == write_words(
                    old(self).store@,
                    (#[trigger] twice_resolved(first, second, key@, addr)).0,
                    twice_resolved(first, second, key@, addr).1 as int,
                    words@,
                ),
    {
        let normal = normalize_key_addr(key, addr);
        let ghost first = choose|lookup: KeyLookup|
            lookup.answers(key@) && normal.0@ == canonical_key(
                (#[trigger] resolve(lookup, key@, addr)).0,
            ) && normal.1 == resolve(lookup, key@, addr).1;
        self.store.set_words(normal.0.as_str(), normal.1, words);
        let ghost second = choose|lookup: KeyLookup|
            lookup.answers(normal.0@) && self.store@ == write_words(
                old(self).store@,
                (#[trigger] resolve(lookup, normal.0@, normal.1)).0,
                resolve(lookup, normal.0@, normal.1).1 as int,
                words@,
            );
        assert(self.store@ == write_words(
            old(self).store@,
            twice_resolved(first, second, key@, addr).0,
            twice_resolved(first, second, key@, addr).1 as int,
            words@,
        ));
    }

    /// Reads words under a key as callers write it, normalized as in
    /// [`MockServer::set_words`].
    pub fn get_words(&self, key: &str, addr: usize, count: usize) -> (words: Vec<Word>)
        ensures
            exists|first: KeyLookup, second: KeyLookup|
                answer_twice(first, second, key@, addr) && words@ == read_words(
                    self.store@,
                    (#[trigger] twice_resolved(first, second, key@, addr)).0,
                    twice_resolved(first, second, key@, addr).1 as int,
                    count as nat,
                ),
            words@.len() == count,
            self.store@ == Map::<u8, Seq<Word>>::empty() ==> words@ == Seq::new(
                count as nat,
                |i: int| 0u16,
            ),
    {
        let normal = normalize_key_addr(key, addr);
        let ghost first = choose|lookup: KeyLookup|
            lookup.answers(key@) && normal.0@ == canonical_key(
                (#[trigger] resolve(lookup, key@, addr)).0,
            ) && normal.1 == resolve(lookup, key@, addr).1;
        let words = self.store.get_words(normal.0.as_str(), normal.1, count);
        let ghost second = choose|lookup: KeyLookup|
            lookup.answers(normal.0@) && words@ == read_words(
                self.store@,
                (#[trigger] resolve(lookup, normal.0@, normal.1)).0,
                resolve(lookup, normal.0@, normal.1).1 as int,
                count as nat,
            );
        assert(words@ == read_words(
            self.store@,
            twice_resolved(first, second, key@, addr).0,
            twice_resolved(first, second, key@, addr).1 as int,
            count as nat,
        ));
        words
    }

    /// Decides on the accumulated bytes of a connection. The descriptor of a
    /// complete frame's command is asked of the command registry of the
    /// process: the contract says what holds whichever it hands out.
    pub fn next_step(&mut self, acc: &mut Vec<u8>) -> (next: Step)
        ensures
            exists|found: Option<CommandView>|
                {
                    let outcome = #[trigger] step(old(self).store@, old(acc)@, found);
                    &&& found_for(wanted_at_front(old(acc)@), found)
                    &&& final(self).store@ == outcome.areas
                    &&& final(acc)@ == outcome.buffer
                    &&& next@ == outcome.step
                },
    {
        let found = match peek_command(acc.as_slice()) {
            Some((command, sub)) => lookup_command(command, sub),
            None => None,
        };
        let chosen: Option<&CommandDescriptor> = found.as_ref();
        let next = step_with(&mut self.store, acc, chosen);
        assert(step(old(self).store@, old(acc)@, found_view(chosen)).step == next@);
        next
    }

    /// Answers one datagram, which is taken as one complete frame. The
    /// descriptor of its command is asked of the command registry of the
    /// process.
    pub fn handle_datagram(&mut self, datagram: &[u8]) -> (reply: Vec<u8>)
        ensures
            exists|found: Option<CommandView>|
                {
                    let served = #[trigger] serve_frame(old(self).store@, datagram@, found);
                    &&& found_for(wanted_command(datagram@), found)
                    &&& final(self).store@ == served.0
                    &&& match served.1 {
                        StepView::Reply(bytes) => reply@ == bytes,
                        StepView::Close(bytes, _) => reply@ == bytes,
                        StepView::NeedMore => false,
                    }
                },
    {
        let found = match frame_command(datagram) {
            Some((command, sub)) => lookup_command(command, sub),
            None => None,
        };
        let chosen: Option<&CommandDescriptor> = found.as_ref();
        let next = serve_frame_with(&mut self.store, datagram, chosen);
        assert(serve_frame(old(self).store@, datagram@, found_view(chosen)).1 == next@);
        match next {
            Step::Reply(bytes) => bytes,
            Step::Close(bytes, _) => bytes,
            Step::NeedMore => Vec::new(),
        }
    }
}

impl Default for MockServer {
    fn default() -> (server: MockServer)
        ensures
            server.store@ == Map::<u8, Seq<Word>>::empty(),
    {
        MockServer::new()
    }
}

} // verus!
