//! The streaming transducer: it reassembles the lines of a server-sent-event
//! stream from arbitrarily cut chunks, screens every data frame against the
//! policy and queues the accepted frames in arrival order, while it keeps
//! the raw bytes for the cache.

use vstd::prelude::*;
use std::collections::VecDeque;
use std::sync::Arc;
use bytes::BytesMut;
use crate::buffer::{append, contents, empty_buffer, held, split_front};
use crate::cache::{CacheKey, CachedResponse};
use crate::interception::{violation, Interceptor};
use crate::json::{parse_text, parsed_text, Json};
use crate::text::{decode_lossy, decoded, has_prefix, same_text, skip_chars, trim, trimmed};

verus! {

/// One item of the outgoing sequence: the payload of an accepted frame, or
/// the message of a policy violation.
#[derive(Debug, Clone, PartialEq, Eq)]
pub enum StreamItem {
    Frame(String),
    Fault(String),
}

/// The mathematical value of a `StreamItem`.
pub enum Emitted {
    Frame(Seq<char>),
    Fault(Seq<char>),
}

impl View for StreamItem {
    type V = Emitted;

    open spec fn view(&self) -> Emitted {
        match self {
            StreamItem::Frame(payload) => Emitted::Frame(payload@),
            StreamItem::Fault(message) => Emitted::Fault(message@),
        }
    }
}

/// The views of the items of a queue, front first.
pub open spec fn views(items: Seq<StreamItem>) -> Seq<Emitted> {
    items.map_values(|item: StreamItem| item@)
}

/// The first violation among the `delta` objects of `choices`, at or after
/// index `from`.
pub open spec fn first_delta_violation(names: Seq<String>, choices: Seq<Json>, from: int) -> Option<
    Seq<char>,
>
    decreases choices.len() - from,
{
    if from < 0 || from >= choices.len() {
        None
    } else {
        match choices[from].member("delta"@) {
            Some(delta) => match violation(names, delta) {
                Some(message) => Some(message),
                None => first_delta_violation(names, choices, from + 1),
            },
            None => first_delta_violation(names, choices, from + 1),
        }
    }
}

/// The violation that a decoded frame commits: the first one among the
/// deltas of its `choices` array.
pub open spec fn frame_violation(names: Seq<String>, frame: Json) -> Option<Seq<char>> {
    match frame.member("choices"@) {
        Some(choices) => match choices.items() {
            Some(elements) => first_delta_violation(names, elements, 0),
            None => None,
        },
        None => None,
    }
}

/// What a payload becomes, given what the JSON parser made of it: the
/// terminator and unparsable text pass unchanged, a parsed frame passes
/// unless it commits a violation.
pub open spec fn judged(names: Seq<String>, payload: Seq<char>, parsed: Option<Json>) -> Emitted {
    if payload == "[DONE]"@ {
        Emitted::Frame(payload)
    } else {
        match parsed {
            Some(frame) => match frame_violation(names, frame) {
                Some(message) => Emitted::Fault(message),
                None => Emitted::Frame(payload),
            },
            None => Emitted::Frame(payload),
        }
    }
}

/// The payload of a line: what follows `data: ` once the line is decoded and
/// trimmed. A blank line and any other protocol line have none.
pub open spec fn payload_of(line: Seq<u8>) -> Option<Seq<char>> {
    let text = trimmed(decoded(line));
    if "data: "@.is_prefix_of(text) {
        Some(text.skip("data: "@.len() as int))
    } else {
        None
    }
}

/// What a complete line contributes to the output, if anything.
pub open spec fn line_item(names: Seq<String>, line: Seq<u8>) -> Option<Emitted> {
    match payload_of(line) {
        Some(payload) => Some(judged(names, payload, parsed_text(payload))),
        None => None,
    }
}

/// The index of the first line feed at or after `from`.
pub open spec fn first_newline(bytes: Seq<u8>, from: int) -> Option<int>
    decreases bytes.len() - from,
{
    if from < 0 || from >= bytes.len() {
        None
    } else if bytes[from] == 10 {
        Some(from)
    } else {
        first_newline(bytes, from + 1)
    }
}

/// The outcome of one pass over a buffer.
pub struct Pass {
    /// The bytes left in the buffer.
    pub rest: Seq<u8>,
    /// The items queued, in order.
    pub items: Seq<Emitted>,
}

/// The bytes behind the last line feed of `buffer`: its unfinished last
/// line, or all of it where it holds no line feed.
pub open spec fn unfinished(buffer: Seq<u8>) -> Seq<u8>
    decreases buffer.len(),
{
    match first_newline(buffer, 0) {
        Some(at) if 0 <= at < buffer.len() => unfinished(buffer.skip(at + 1)),
        _ => buffer,
    }
}

/// One pass over `buffer`: every complete line is taken out, and the items
/// of the lines are collected in order until a line commits a violation.
/// The fault is then the last item: the lines behind it are dropped
/// unread. Only the unfinished last line is left.
pub open spec fn scan(names: Seq<String>, buffer: Seq<u8>) -> Pass
    decreases buffer.len(),
{
    match first_newline(buffer, 0) {
        Some(at) if 0 <= at < buffer.len() => {
            let rest = buffer.skip(at + 1);
            match line_item(names, buffer.take(at + 1)) {
                Some(Emitted::Fault(message)) => Pass {
                    rest: unfinished(rest),
                    items: seq![Emitted::Fault(message)],
                },
                Some(frame) => Pass {
                    rest: scan(names, rest).rest,
                    items: seq![frame] + scan(names, rest).items,
                },
                None => scan(names, rest),
            }
        },
        _ => Pass { rest: buffer, items: Seq::empty() },
    }
}

/// Whether a pass ended on a violation.
pub open spec fn halted(pass: Pass) -> bool {
    pass.items.len() > 0 && pass.items.last() is Fault
}

/// What the upstream source answered when asked for more.
#[derive(Debug)]
pub enum Upstream {
    /// The next chunk of bytes.
    Chunk(Vec<u8>),
    /// A transport fault; the caller keeps the fault itself.
    Fault,
    /// Clean end of data.
    End,
    /// Nothing yet.
    Pending,
}

/// What the consumer is handed.
#[derive(Debug, PartialEq, Eq)]
pub enum Step {
    /// The next item of the sequence.
    Item(StreamItem),
    /// The upstream fault is to be forwarded as the terminal item.
    UpstreamFault,
    /// The sequence has ended.
    Finished,
    /// Not ready yet; with `wake`, the consumer is to ask again without
    /// waiting for the source.
    NotReady { wake: bool },
}

/// The answer to an upstream event: the step for the consumer and, at the
/// end of a stream that has a cache target, the response to store in the
/// background.
#[derive(Debug)]
pub struct Progress {
    pub step: Step,
    pub store: Option<(CacheKey, CachedResponse)>,
}

/// Whether `step` and the queue left behind deliver the front of `all`, or
/// `idle` when `all` is empty.
pub open spec fn delivers(step: Step, left: Seq<Emitted>, all: Seq<Emitted>, idle: Step) -> bool {
    if all.len() > 0 {
        &&& step matches Step::Item(item)
        &&& item@ == all[0]
        &&& left == all.skip(1)
    } else {
        &&& step == idle
        &&& left == all
    }
}

/// The state of one response stream.
pub struct StreamingAnalyzer {
    pub interceptor: Arc<Interceptor>,
    pub buffer: BytesMut,
    pub pending_events: VecDeque<StreamItem>,
    pub full_response_buffer: BytesMut,
    pub cache_info: Option<CacheKey>,
}

/// The index of the first line feed in `bytes`.
pub fn find_newline(bytes: &[u8]) -> (r: Option<usize>)
    ensures
        match r {
            Some(at) => first_newline(bytes@, 0) == Some(at as int) && at < bytes@.len(),
            None => first_newline(bytes@, 0).is_none(),
        },
{
    let mut i: usize = 0;
    while i < bytes.len()
        invariant
            i <= bytes.len(),
            first_newline(bytes@, 0) == first_newline(bytes@, i as int),
        decreases bytes.len() - i,
    {
        if bytes[i] == 10 {
            return Some(i);
        }
        i += 1;
    }
    None
}

impl StreamingAnalyzer {
    /// The deny list in force.
    pub open spec fn names(&self) -> Seq<String> {
        self.interceptor.names()
    }

    /// The queued items, front first.
    pub open spec fn queued(&self) -> Seq<Emitted> {
        views(self.pending_events@)
    }

    /// Whether both buffers can take `n` more bytes without their lengths
    /// leaving the range of `usize`.
    pub open spec fn has_room_for(&self, n: nat) -> bool {
        &&& held(self.buffer).len() + n <= usize::MAX
        &&& held(self.full_response_buffer).len() + n <= usize::MAX
    }

    /// Whether `self` differs from `before` in the line buffer and the queue
    /// at most.
    pub open spec fn keeps_stream_of(&self, before: &Self) -> bool {
        &&& self.interceptor == before.interceptor
        &&& self.full_response_buffer == before.full_response_buffer
        &&& self.cache_info == before.cache_info
    }

    /// A transducer with empty buffers. With a `cache_key`, the raw response
    /// is handed out for storing when the stream ends cleanly.
    pub fn new(interceptor: Arc<Interceptor>, cache_key: Option<CacheKey>) -> (r: Self)
        ensures
            r.interceptor == interceptor,
            r.cache_info == cache_key,
            held(r.buffer).len() == 0,
            held(r.full_response_buffer).len() == 0,
            r.queued().len() == 0,
    {
        StreamingAnalyzer {
            interceptor,
            buffer: empty_buffer(),
            pending_events: VecDeque::new(),
            full_response_buffer: empty_buffer(),
            cache_info: cache_key,
        }
    }

    /// The raw bytes received so far.
    pub fn get_full_response(&self) -> (r: Vec<u8>)
        ensures
            r@ == held(self.full_response_buffer),
    {
        vstd::slice::slice_to_vec(contents(&self.full_response_buffer))
    }

    /// Checks the deltas of a decoded frame against the policy.
    pub fn content_interception(&self, json: &Json) -> (r: Result<(), String>)
        ensures
            match r {
                Ok(_) => frame_violation(self.names(), *json).is_none(),
                Err(message) => frame_violation(self.names(), *json) == Some(message@),
            },
    {
        if let Some(field) = json.get("choices") {
            if let Some(choices) = field.as_array() {
                let mut i: usize = 0;
                while i < choices.len()
                    invariant
                        i <= choices.len(),
                        frame_violation(self.names(), *json) == first_delta_violation(
                            self.names(),
                            choices@,
                            0,
                        ),
                        first_delta_violation(self.names(), choices@, 0) == first_delta_violation(
                            self.names(),
                            choices@,
                            i as int,
                        ),
                    decreases choices.len() - i,
                {
                    if let Some(delta) = choices[i].get("delta") {
                        if let Err(message) = self.interceptor.validate_tools(delta) {
                            return Err(message);
                        }
                    }
                    i += 1;
                }
            }
        }
        Ok(())
    }

    /// Turns a payload and what the parser made of it into an item.
    pub fn judge(&self, payload: &str, parsed: Option<&Json>) -> (r: StreamItem)
        ensures
            r@ == judged(
                self.names(),
                payload@,
                match parsed {
                    Some(frame) => Some(*frame),
                    None => None,
                },
            ),
    {
        if !same_text(payload, "[DONE]") {
            if let Some(frame) = parsed {
                if let Err(message) = self.content_interception(frame) {
                    return StreamItem::Fault(message);
                }
            }
        }
        StreamItem::Frame(payload.to_owned())
    }

    /// Turns a payload into an item; anything but the terminator is parsed
    /// first.
    pub fn judge_payload(&self, payload: &str) -> (r: StreamItem)
        ensures
            r@ == judged(self.names(), payload@, parsed_text(payload@)),
    {
        if same_text(payload, "[DONE]") {
            self.judge(payload, None)
        } else {
            let parsed = parse_text(payload);
            self.judge(payload, parsed.as_ref())
        }
    }

    /// Turns one complete line into an item, or into nothing.
    pub fn judge_line(&self, line: &[u8]) -> (r: Option<StreamItem>)
        ensures
            match r {
                Some(item) => line_item(self.names(), line@) == Some(item@),
                None => line_item(self.names(), line@).is_none(),
            },
    {
        let decoded = decode_lossy(line);
        let text = trim(decoded.as_str());
        if text.is_empty() {
            proof {
                reveal_strlit("data: ");
            }
            return None;
        }
        if has_prefix(text, "data: ") {
            proof {
                reveal_strlit("data: ");
            }
            let payload = skip_chars(text, 6);
            Some(self.judge_payload(payload))
        } else {
            None
        }
    }

    /// Takes every complete line out of the line buffer, unread.
    fn drop_lines(&mut self)
        ensures
            final(self).keeps_stream_of(old(self)),
            final(self).pending_events == old(self).pending_events,
            held(final(self).buffer) == unfinished(held(old(self).buffer)),
    {
        loop
            invariant
                self.keeps_stream_of(old(self)),
                self.pending_events == old(self).pending_events,
                unfinished(held(self.buffer)) == unfinished(held(old(self).buffer)),
            decreases held(self.buffer).len(),
        {
            let bytes = contents(&self.buffer);
            let len = bytes.len();
            let at = match find_newline(bytes) {
                Some(at) => at,
                None => {
                    return ;
                },
            };
            assert(at < len);
            let _ = split_front(&mut self.buffer, at + 1);
        }
    }

    /// One pass over the line buffer: every complete line leaves it, and the
    /// items of the lines join the queue in order, up to and including the
    /// first fault. What stays is the unfinished last line: the bytes
    /// behind the last line feed.
    pub fn process_buffer(&mut self)
        ensures
            final(self).keeps_stream_of(old(self)),
            held(final(self).buffer) == unfinished(held(old(self).buffer)),
            first_newline(held(final(self).buffer), 0).is_none(),
            held(final(self).buffer) == scan(old(self).names(), held(old(self).buffer)).rest,
            final(self).queued() == old(self).queued() + scan(
                old(self).names(),
                held(old(self).buffer),
            ).items,
    {
        proof {
            scan_rest_is_unfinished(old(self).names(), held(old(self).buffer));
            unfinished_has_no_line(held(old(self).buffer));
        }
        loop
            invariant
                self.keeps_stream_of(old(self)),
                scan(old(self).names(), held(old(self).buffer)).rest == unfinished(held(old(self).buffer)),
                first_newline(unfinished(held(old(self).buffer)), 0).is_none(),
                scan(self.names(), held(self.buffer)).rest == scan(
                    old(self).names(),
                    held(old(self).buffer),
                ).rest,
                self.queued() + scan(self.names(), held(self.buffer)).items == old(self).queued() + scan(
                    old(self).names(),
                    held(old(self).buffer),
                ).items,
            decreases held(self.buffer).len(),
        {
            let bytes = contents(&self.buffer);
            let len = bytes.len();
            let found = find_newline(bytes);
            let at = match found {
                Some(at) => at,
                None => {
                    assert(self.queued() + Seq::<Emitted>::empty() =~= self.queued());
                    return ;
                },
            };
            let ghost before = held(self.buffer);
            let ghost queue = self.pending_events@;
            assert(at < len);
            let line = split_front(&mut self.buffer, at + 1);
            match self.judge_line(contents(&line)) {
                Some(item) => {
                    let ghost value = item@;
                    let stop = match &item {
                        StreamItem::Fault(_) => true,
                        StreamItem::Frame(_) => false,
                    };
                    self.pending_events.push_back(item);
                    assert(self.queued() =~= views(queue).push(value));
                    if stop {
                        assert(views(queue).push(value) =~= views(queue) + seq![value]);
                        self.drop_lines();
                        return ;
                    }
                    assert(views(queue) + (seq![value] + scan(self.names(), held(self.buffer)).items)
                        =~= views(queue).push(value) + scan(self.names(), held(self.buffer)).items);
                },
                None => {},
            }
        }
    }

    /// Takes the front of the queue, or answers `idle` when it is empty.
    fn pop_or(&mut self, idle: Step) -> (r: Step)
        ensures
            final(self).keeps_stream_of(old(self)),
            final(self).buffer == old(self).buffer,
            delivers(r, final(self).queued(), old(self).queued(), idle),
    {
        match self.pending_events.pop_front() {
            Some(item) => {
                assert(self.queued() =~= old(self).queued().skip(1));
                Step::Item(item)
            },
            None => idle,
        }
    }

    /// The next queued item, if any. The upstream source is to be asked only
    /// when this answers `None`.
    pub fn next_ready(&mut self) -> (r: Option<StreamItem>)
        ensures
            final(self).keeps_stream_of(old(self)),
            final(self).buffer == old(self).buffer,
            match r {
                Some(item) => old(self).queued().len() > 0 && item@ == old(self).queued()[0]
                    && final(self).queued() == old(self).queued().skip(1),
                None => old(self).queued().len() == 0 && final(self).queued().len() == 0,
            },
    {
        let r = self.pending_events.pop_front();
        assert(r.is_some() ==> self.queued() =~= old(self).queued().skip(1));
        r
    }

    /// Appends a chunk to the line buffer and to the raw response.
    fn absorb(&mut self, bytes: &Vec<u8>)
        requires
            old(self).has_room_for(bytes@.len()),
        ensures
            final(self).interceptor == old(self).interceptor,
            final(self).cache_info == old(self).cache_info,
            final(self).pending_events == old(self).pending_events,
            held(final(self).buffer) == held(old(self).buffer) + bytes@,
            held(final(self).full_response_buffer) == held(old(self).full_response_buffer) + bytes@,
    {
        append(&mut self.buffer, bytes.as_slice());
        append(&mut self.full_response_buffer, bytes.as_slice());
    }

    /// Whether both buffers can take `n` more bytes.
    pub fn has_room(&self, n: usize) -> (r: bool)
        ensures
            r == self.has_room_for(n as nat),
    {
        let pending = contents(&self.buffer).len();
        let received = contents(&self.full_response_buffer).len();
        n <= usize::MAX - pending && n <= usize::MAX - received
    }

    /// As `on_upstream`, for any event: a chunk that the buffers have no
    /// room for is refused with `None`, and nothing changes.
    pub fn try_upstream(&mut self, event: Upstream) -> (r: Option<Progress>)
        ensures
            match r {
                Some(progress) => {
                    &&& event matches Upstream::Chunk(bytes) ==> old(self).has_room_for(
                        bytes@.len(),
                    )
                    &&& upstream_step(*old(self), event, *final(self), progress)
                },
                None => {
                    &&& event matches Upstream::Chunk(bytes) && !old(self).has_room_for(
                        bytes@.len(),
                    )
                    &&& *final(self) == *old(self)
                },
            },
    {
        let fits = match &event {
            Upstream::Chunk(bytes) => self.has_room(bytes.len()),
            _ => true,
        };
        if fits {
            Some(self.on_upstream(event))
        } else {
            None
        }
    }

    /// Takes in what the upstream source answered and says what the consumer
    /// gets. To be called when `next_ready` found the queue empty, with a
    /// chunk that the buffers have room for (`has_room` tells).
    ///
    /// A chunk joins both buffers and is scanned. A fault is forwarded and a
    /// pending source passed on, with the state untouched. At the clean end
    /// an unfinished last line is dropped, and the raw response is handed
    /// out for storing under the cache key, which is given up for good: a
    /// stream that never reaches its end is never stored.
    pub fn on_upstream(&mut self, event: Upstream) -> (r: Progress)
        requires
            event matches Upstream::Chunk(bytes) ==> old(self).has_room_for(bytes@.len()),
        ensures
            upstream_step(*old(self), event, *final(self), r),
    {
        match event {
            Upstream::Chunk(bytes) => {
                self.absorb(&bytes);
                self.process_buffer();
                let step = self.pop_or(Step::NotReady { wake: true });
                Progress { step, store: None }
            },
            Upstream::Fault => Progress { step: Step::UpstreamFault, store: None },
            Upstream::End => {
                self.process_buffer();
                let store = match self.cache_info.take() {
                    Some(key) => {
                        let body = self.get_full_response();
                        Some((key, CachedResponse::ok_with("text/event-stream", body)))
                    },
                    None => None,
                };
                let step = self.pop_or(Step::Finished);
                Progress { step, store }
            },
            Upstream::Pending => Progress { step: Step::NotReady { wake: false }, store: None },
        }
    }
}

/// What `on_upstream` does with `event`, as a relation between the state
/// before, the state after and the progress reported.
pub open spec fn upstream_step(
    before: StreamingAnalyzer,
    event: Upstream,
    after: StreamingAnalyzer,
    progress: Progress,
) -> bool {
    &&& after.interceptor == before.interceptor
    &&& match event {
        Upstream::Chunk(bytes) => {
            let pass = scan(before.names(), held(before.buffer) + bytes@);
            &&& held(after.full_response_buffer) == held(before.full_response_buffer) + bytes@
            &&& held(after.buffer) == pass.rest
            &&& first_newline(held(after.buffer), 0).is_none()
            &&& after.cache_info == before.cache_info
            &&& progress.store.is_none()
            &&& delivers(
                progress.step,
                after.queued(),
                before.queued() + pass.items,
                Step::NotReady { wake: true },
            )
        },
        Upstream::Fault => {
            &&& after == before
            &&& progress.step == Step::UpstreamFault
            &&& progress.store.is_none()
        },
        Upstream::End => {
            let pass = scan(before.names(), held(before.buffer));
            &&& after.full_response_buffer == before.full_response_buffer
            &&& held(after.buffer) == pass.rest
            &&& first_newline(held(after.buffer), 0).is_none()
            &&& after.cache_info.is_none()
            &&& match before.cache_info {
                Some(key) => progress.store matches Some(entry) && entry.0 == key
                    && entry.1.is_ok_with(
                    "text/event-stream"@,
                    held(before.full_response_buffer),
                ),
                None => progress.store.is_none(),
            }
            &&& delivers(
                progress.step,
                after.queued(),
                before.queued() + pass.items,
                Step::Finished,
            )
        },
        Upstream::Pending => {
            &&& after == before
            &&& progress.step == Step::NotReady { wake: false }
            &&& progress.store.is_none()
        },
    }
}

/// The chunks joined into one byte sequence.
pub open spec fn joined(chunks: Seq<Seq<u8>>) -> Seq<u8>
    decreases chunks.len(),
{
    if chunks.len() == 0 {
        Seq::empty()
    } else {
        chunks[0] + joined(chunks.drop_first())
    }
}

/// What feeding the chunks one by one produces, from the pending bytes
/// `buffer`: each chunk is appended to what the pass before it left and
/// scanned in turn.
pub open spec fn fed(names: Seq<String>, buffer: Seq<u8>, chunks: Seq<Seq<u8>>) -> Pass
    decreases chunks.len(),
{
    if chunks.len() == 0 {
        Pass { rest: buffer, items: Seq::empty() }
    } else {
        let first = scan(names, buffer + chunks[0]);
        let later = fed(names, first.rest, chunks.drop_first());
        Pass { rest: later.rest, items: first.items + later.items }
    }
}

/// What `first_newline` finds is a line feed with none before it; when it
/// finds nothing there is none.
pub proof fn first_newline_is_earliest(bytes: Seq<u8>, from: int)
    requires
        0 <= from,
    ensures
        match first_newline(bytes, from) {
            Some(at) => from <= at < bytes.len() && bytes[at] == 10 && forall|j: int|
                from <= j < at ==> bytes[j] != 10,
            None => forall|j: int| from <= j < bytes.len() ==> bytes[j] != 10,
        },
    decreases bytes.len() - from,
{
    if from < bytes.len() && bytes[from] != 10 {
        first_newline_is_earliest(bytes, from + 1);
    }
}

proof fn first_newline_survives_append(a: Seq<u8>, b: Seq<u8>, from: int)
    requires
        0 <= from,
        first_newline(a, from).is_some(),
    ensures
        first_newline(a + b, from) == first_newline(a, from),
    decreases a.len() - from,
{
    if from < a.len() {
        assert((a + b)[from] == a[from]);
        if a[from] != 10 {
            first_newline_survives_append(a, b, from + 1);
        }
    }
}

/// What a pass leaves is the unfinished last line of what it was given,
/// whatever the lines held.
pub proof fn scan_rest_is_unfinished(names: Seq<String>, buffer: Seq<u8>)
    ensures
        scan(names, buffer).rest == unfinished(buffer),
    decreases buffer.len(),
{
    first_newline_is_earliest(buffer, 0);
    match first_newline(buffer, 0) {
        Some(at) => {
            scan_rest_is_unfinished(names, buffer.skip(at + 1));
        },
        None => {},
    }
}

/// The unfinished last line holds no line feed.
pub proof fn unfinished_has_no_line(buffer: Seq<u8>)
    ensures
        first_newline(unfinished(buffer), 0).is_none(),
    decreases buffer.len(),
{
    first_newline_is_earliest(buffer, 0);
    match first_newline(buffer, 0) {
        Some(at) => {
            unfinished_has_no_line(buffer.skip(at + 1));
        },
        None => {},
    }
}

/// The unfinished last line is the end of the buffer from just behind its
/// last line feed: it starts at the front or behind a line feed, and no
/// line feed stands in it.
pub proof fn unfinished_is_the_tail(buffer: Seq<u8>)
    ensures
        unfinished(buffer).len() <= buffer.len(),
        unfinished(buffer) == buffer.skip(buffer.len() - unfinished(buffer).len()),
        unfinished(buffer).len() == buffer.len() || buffer[buffer.len() - unfinished(buffer).len()
            - 1] == 10,
        forall|j: int|
            buffer.len() - unfinished(buffer).len() <= j < buffer.len() ==> buffer[j] != 10,
    decreases buffer.len(),
{
    first_newline_is_earliest(buffer, 0);
    match first_newline(buffer, 0) {
        Some(at) => {
            let rest = buffer.skip(at + 1);
            unfinished_is_the_tail(rest);
            let k = rest.len() - unfinished(rest).len();
            assert(rest.skip(k) =~= buffer.skip(at + 1 + k));
            assert forall|j: int|
                buffer.len() - unfinished(buffer).len() <= j < buffer.len() implies buffer[j]
                != 10 by {
                assert(buffer[j] == rest[j - (at + 1)]);
            }
            if k > 0 {
                assert(rest[k - 1] == buffer[at + k]);
            }
        },
        None => {
            assert(buffer.skip(0) =~= buffer);
        },
    }
}

/// The unfinished last line of a joined input is that of the first part's
/// unfinished last line joined with the second part.
pub proof fn unfinished_of_split(a: Seq<u8>, b: Seq<u8>)
    ensures
        unfinished(a + b) == unfinished(unfinished(a) + b),
    decreases a.len(),
{
    first_newline_is_earliest(a, 0);
    match first_newline(a, 0) {
        Some(at) => {
            first_newline_survives_append(a, b, 0);
            assert((a + b).skip(at + 1) =~= a.skip(at + 1) + b);
            unfinished_of_split(a.skip(at + 1), b);
        },
        None => {},
    }
}

/// Splitting the input does not change a pass: scanning `a + b` gives what
/// scanning `a` gives, followed by what scanning the left-over of `a` joined
/// with `b` gives. Where the pass over `a` ends on a violation it stops
/// there, and the lines of `b` are dropped with the rest.
pub proof fn scan_of_split(names: Seq<String>, a: Seq<u8>, b: Seq<u8>)
    ensures
        scan(names, a + b).rest == scan(names, scan(names, a).rest + b).rest,
        halted(scan(names, a)) ==> scan(names, a + b).items == scan(names, a).items,
        !halted(scan(names, a)) ==> scan(names, a + b).items == scan(names, a).items + scan(
            names,
            scan(names, a).rest + b,
        ).items,
    decreases a.len(),
{
    scan_rest_is_unfinished(names, a);
    scan_rest_is_unfinished(names, a + b);
    scan_rest_is_unfinished(names, unfinished(a) + b);
    unfinished_of_split(a, b);
    first_newline_is_earliest(a, 0);
    match first_newline(a, 0) {
        Some(at) => {
            first_newline_survives_append(a, b, 0);
            let rest = a.skip(at + 1);
            assert((a + b).take(at + 1) =~= a.take(at + 1));
            assert((a + b).skip(at + 1) =~= rest + b);
            match line_item(names, a.take(at + 1)) {
                Some(Emitted::Fault(message)) => {},
                Some(frame) => {
                    scan_of_split(names, rest, b);
                    let tail = scan(names, rest);
                    assert(scan(names, a).items == seq![frame] + tail.items);
                    assert(halted(scan(names, a)) == halted(tail));
                    if !halted(tail) {
                        let next = scan(names, tail.rest + b);
                        assert(seq![frame] + (tail.items + next.items) =~= (seq![frame]
                            + tail.items) + next.items);
                    }
                },
                None => {
                    scan_of_split(names, rest, b);
                },
            }
        },
        None => {
            assert(scan(names, a).rest == a);
            assert(scan(names, a).items + scan(names, a + b).items =~= scan(names, a + b).items);
        },
    }
}

/// An unfinished line stays where it is: a buffer without a line feed is
/// left as it is and queues nothing, at the end of the stream too.
pub proof fn unfinished_line_is_kept_back(names: Seq<String>, buffer: Seq<u8>)
    requires
        first_newline(buffer, 0).is_none(),
    ensures
        scan(names, buffer).items.len() == 0,
        scan(names, buffer).rest == buffer,
{
}

/// A fault ends the pass in which it is read: of the items of one pass only
/// the last can be a fault.
pub proof fn fault_is_last(names: Seq<String>, buffer: Seq<u8>, i: int)
    requires
        0 <= i < scan(names, buffer).items.len(),
        scan(names, buffer).items[i] is Fault,
    ensures
        i == scan(names, buffer).items.len() - 1,
    decreases buffer.len(),
{
    first_newline_is_earliest(buffer, 0);
    match first_newline(buffer, 0) {
        Some(at) => {
            let rest = buffer.skip(at + 1);
            match line_item(names, buffer.take(at + 1)) {
                Some(Emitted::Fault(message)) => {},
                Some(frame) => {
                    assert(scan(names, buffer).items == seq![frame] + scan(names, rest).items);
                    if i > 0 {
                        fault_is_last(names, rest, i - 1);
                    }
                },
                None => {
                    fault_is_last(names, rest, i);
                },
            }
        },
        None => {},
    }
}

/// A pass leaves no complete line behind, whether it met a violation or not.
pub proof fn scan_leaves_no_line(names: Seq<String>, buffer: Seq<u8>)
    ensures
        first_newline(scan(names, buffer).rest, 0).is_none(),
{
    scan_rest_is_unfinished(names, buffer);
    unfinished_has_no_line(buffer);
}

/// Chunking invariance: however a stream is cut into chunks, feeding them
/// one by one queues the same items in the same order, and leaves the same
/// pending bytes, as one pass over the whole. It holds of streams that
/// commit no violation; a violation ends the pass in which it is read.
pub proof fn chunking_invariance(names: Seq<String>, buffer: Seq<u8>, chunks: Seq<Seq<u8>>)
    requires
        first_newline(buffer, 0).is_none(),
        !halted(scan(names, buffer + joined(chunks))),
    ensures
        fed(names, buffer, chunks).items == scan(names, buffer + joined(chunks)).items,
        fed(names, buffer, chunks).rest == scan(names, buffer + joined(chunks)).rest,
    decreases chunks.len(),
{
    if chunks.len() == 0 {
        assert(buffer + joined(chunks) =~= buffer);
    } else {
        let head = buffer + chunks[0];
        let tail = chunks.drop_first();
        assert(buffer + joined(chunks) =~= head + joined(tail));
        scan_of_split(names, head, joined(tail));
        let first = scan(names, head);
        let whole = scan(names, head + joined(tail));
        let next = scan(names, first.rest + joined(tail));
        assert(!halted(first));
        if halted(next) {
            assert((first.items + next.items).last() == next.items.last());
        }
        scan_leaves_no_line(names, head);
        chunking_invariance(names, first.rest, tail);
    }
}

} // verus!
