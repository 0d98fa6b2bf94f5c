//! The wire format of a frame, `data: <payload>` closed by a blank line, and
//! the proof that the transducer reads a frame written so back as itself.

use vstd::prelude::*;
use vstd::string::*;
use vstd::utf8::*;
use crate::json::parsed_text;
use crate::streaming::{
    chunking_invariance, fed, first_newline, first_newline_is_earliest, halted, joined, judged,
    line_item, payload_of, scan, scan_of_split, unfinished, Emitted,
};
use crate::text::{decoded, is_white_space, trim_back, trim_front, trimmed};

verus! {

/// A frame as text: the `data: ` prefix, the payload and two line feeds.
pub open spec fn wire_text(payload: Seq<char>) -> Seq<char> {
    "data: "@ + payload + "\n\n"@
}

/// A frame as bytes.
pub open spec fn wire_bytes(payload: Seq<char>) -> Seq<u8> {
    encode_utf8(wire_text(payload))
}

/// Whether a payload can be written as a frame and read back: it is not
/// empty, holds no line feed and does not end in white space.
pub open spec fn writable(payload: Seq<char>) -> bool {
    &&& payload.len() > 0
    &&& !is_white_space(payload.last())
    &&& forall|i: int| 0 <= i < payload.len() ==> payload[i] != '\n'
}

/// Writes a payload as a frame.
pub fn frame_bytes(payload: &str) -> (r: Vec<u8>)
    ensures
        r@ == wire_bytes(payload@),
{
    let mut text = String::from_str("data: ");
    text.append(payload);
    text.append("\n\n");
    text.as_str().as_bytes_vec()
}

/// The encoding of a text in two parts is the encodings of the parts, joined.
pub proof fn encoding_of_concat(a: Seq<char>, b: Seq<char>)
    ensures
        encode_utf8(a + b) == encode_utf8(a) + encode_utf8(b),
    decreases a.len(),
{
    if a.len() == 0 {
        assert(a + b =~= b);
        assert(encode_utf8(a) + encode_utf8(b) =~= encode_utf8(b));
    } else {
        assert((a + b).drop_first() =~= a.drop_first() + b);
        encoding_of_concat(a.drop_first(), b);
        assert(encode_utf8(a + b) =~= encode_utf8(a) + encode_utf8(b));
    }
}

/// Whether no byte is a line feed.
pub open spec fn free_of_line_feed(bytes: Seq<u8>) -> bool {
    forall|j: int| 0 <= j < bytes.len() ==> bytes[j] != 10
}

/// Only the line feed character is encoded with a line feed byte.
proof fn scalar_without_line_feed(c: char)
    requires
        c != '\n',
    ensures
        free_of_line_feed(encode_scalar(c as u32)),
{
    let s = c as u32;
    char_u32_cast(c, s);
    assert(s != 10);
    assert(s <= 0x7F && s != 10 ==> ((s & 0x7F) as u8) != 10) by (bit_vector);
    assert((0xC0u8 | ((s >> 6) & 0x1F) as u8) != 10) by (bit_vector);
    assert((0xE0u8 | ((s >> 12) & 0x0F) as u8) != 10) by (bit_vector);
    assert((0xF0u8 | ((s >> 18) & 0x7) as u8) != 10) by (bit_vector);
    assert((0x80u8 | (s & 0x3F) as u8) != 10) by (bit_vector);
    assert((0x80u8 | ((s >> 6) & 0x3F) as u8) != 10) by (bit_vector);
    assert((0x80u8 | ((s >> 12) & 0x3F) as u8) != 10) by (bit_vector);
}

/// A text without a line feed is encoded without a line feed byte.
pub proof fn encoding_without_line_feed(text: Seq<char>)
    requires
        forall|i: int| 0 <= i < text.len() ==> text[i] != '\n',
    ensures
        free_of_line_feed(encode_utf8(text)),
    decreases text.len(),
{
    if text.len() > 0 {
        scalar_without_line_feed(text[0]);
        let rest = text.drop_first();
        assert forall|i: int| 0 <= i < rest.len() implies rest[i] != '\n' by {
            assert(rest[i] == text[i + 1]);
        }
        encoding_without_line_feed(rest);
    }
}

/// The first line feed is where a line feed stands with none before it.
proof fn first_newline_found(bytes: Seq<u8>, at: int)
    requires
        0 <= at < bytes.len(),
        bytes[at] == 10,
        forall|j: int| 0 <= j < at ==> bytes[j] != 10,
    ensures
        first_newline(bytes, 0) == Some(at),
{
    first_newline_is_earliest(bytes, 0);
}

/// A frame on the wire is read back as itself: one pass over the bytes of a
/// frame queues the payload's item and nothing else, and leaves the buffer
/// empty. It holds of a payload
/// that has no line feed and does not end in white space, which trimming
/// would take away.
pub proof fn frame_reads_back(names: Seq<String>, payload: Seq<char>)
    requires
        writable(payload),
    ensures
        scan(names, wire_bytes(payload)).items == seq![
            judged(names, payload, parsed_text(payload)),
        ],
        scan(names, wire_bytes(payload)).rest == Seq::<u8>::empty(),
{
    reveal_strlit("data: ");
    reveal_strlit("\n\n");
    let lead = "data: "@;
    let head = lead + payload;
    let feed = seq!['\n'];
    let bytes = wire_bytes(payload);
    let eh = encode_utf8(head);
    let k = eh.len() as int;
    assert(wire_text(payload) =~= (head + feed) + feed);
    encoding_of_concat(head + feed, feed);
    encoding_of_concat(head, feed);
    assert(encode_utf8(feed) =~= seq![10u8]) by {
        assert(feed.drop_first() =~= Seq::<char>::empty());
        assert(encode_utf8(Seq::<char>::empty()) =~= Seq::<u8>::empty());
        assert(((10u32 & 0x7F) as u8) == 10u8) by (bit_vector);
        assert(encode_scalar(feed[0] as u32) =~= seq![10u8]);
    }
    assert(bytes =~= (eh + seq![10u8]) + seq![10u8]);
    assert forall|i: int| 0 <= i < head.len() implies head[i] != '\n' by {
        if i >= 6 {
            assert(head[i] == payload[i - 6]);
        }
    }
    encoding_without_line_feed(head);
    first_newline_found(bytes, k);

    let line = bytes.take(k + 1);
    let rest = bytes.skip(k + 1);
    assert(line =~= encode_utf8(head + feed));
    encode_utf8_valid_utf8(head + feed);
    encode_utf8_decode_utf8(head + feed);
    assert(decoded(line) == head + feed);
    assert(trim_front(head + feed) == head + feed) by {
        assert((head + feed)[0] == 'd');
    }
    assert(trim_back(head + feed) == head) by {
        assert((head + feed).last() == '\n');
        assert((head + feed).drop_last() =~= head);
        assert(head.last() == payload.last());
        assert(trim_back(head) == head);
    }
    assert(trimmed(decoded(line)) == head);
    assert(lead =~= head.subrange(0, 6));
    assert(head.skip(6) =~= payload);
    assert(payload_of(line) == Some(payload));

    assert(rest =~= seq![10u8]);
    first_newline_found(rest, 0);
    assert(rest.take(1) =~= encode_utf8(feed));
    encode_utf8_valid_utf8(feed);
    encode_utf8_decode_utf8(feed);
    assert(decoded(rest.take(1)) == feed);
    assert(trimmed(feed) =~= Seq::<char>::empty()) by {
        assert(feed.drop_first() =~= Seq::<char>::empty());
        assert(trim_front(Seq::<char>::empty()) =~= Seq::<char>::empty());
        assert(trim_front(feed) == trim_front(feed.drop_first()));
        assert(trim_back(Seq::<char>::empty()) =~= Seq::<char>::empty());
    }
    assert(payload_of(rest.take(1)).is_none());
    assert(line_item(names, rest.take(1)).is_none());
    assert(rest.skip(1) =~= Seq::<u8>::empty());
    assert(first_newline(rest.skip(1), 0).is_none());
    assert(scan(names, rest.skip(1)).items =~= Seq::<Emitted>::empty());
    assert(scan(names, rest).items =~= Seq::<Emitted>::empty());
    assert(scan(names, rest).rest =~= Seq::<u8>::empty());
    assert(unfinished(rest.skip(1)) =~= Seq::<u8>::empty());
    assert(unfinished(rest) =~= Seq::<u8>::empty());
    let item = judged(names, payload, parsed_text(payload));
    assert(line_item(names, line) == Some(item));
    assert(scan(names, bytes).items =~= seq![item]);
}

/// A frame in front of more input is read first: its item comes first, and
/// unless it is a fault, the items of what follows come behind it.
pub proof fn frame_is_read_first(names: Seq<String>, payload: Seq<char>, more: Seq<u8>)
    requires
        writable(payload),
    ensures
        scan(names, wire_bytes(payload) + more).items == if judged(
            names,
            payload,
            parsed_text(payload),
        ) is Fault {
            seq![judged(names, payload, parsed_text(payload))]
        } else {
            seq![judged(names, payload, parsed_text(payload))] + scan(names, more).items
        },
        scan(names, wire_bytes(payload) + more).rest == scan(names, more).rest,
{
    frame_reads_back(names, payload);
    scan_of_split(names, wire_bytes(payload), more);
    assert(scan(names, wire_bytes(payload)).rest + more =~= more);
    let item = judged(names, payload, parsed_text(payload));
    assert(scan(names, wire_bytes(payload)).items.last() == item);
}

/// A stream of a data frame and the terminator, cut into chunks in any way,
/// queues the frame's item and then the terminator. It is stated of a
/// payload that commits no violation: what the parser makes of a payload
/// is not known here.
pub proof fn frame_and_terminator_in_any_cut(
    names: Seq<String>,
    payload: Seq<char>,
    chunks: Seq<Seq<u8>>,
)
    requires
        writable(payload),
        !(judged(names, payload, parsed_text(payload)) is Fault),
        joined(chunks) == wire_bytes(payload) + wire_bytes("[DONE]"@),
    ensures
        fed(names, Seq::empty(), chunks).items == seq![
            judged(names, payload, parsed_text(payload)),
            Emitted::Frame("[DONE]"@),
        ],
        fed(names, Seq::empty(), chunks).rest == Seq::<u8>::empty(),
{
    reveal_strlit("[DONE]");
    let done = "[DONE]"@;
    assert(writable(done));
    let item = judged(names, payload, parsed_text(payload));
    let whole = wire_bytes(payload) + wire_bytes(done);
    frame_reads_back(names, done);
    frame_is_read_first(names, payload, wire_bytes(done));
    assert(judged(names, done, parsed_text(done)) == Emitted::Frame(done));
    assert(scan(names, whole).items =~= seq![item, Emitted::Frame(done)]);
    assert(!halted(scan(names, whole)));
    assert(Seq::<u8>::empty() + joined(chunks) =~= joined(chunks));
    chunking_invariance(names, Seq::empty(), chunks);
}

/// The stream `data: {"a":1}`, blank line, `data: [DONE]`, blank line, cut
/// into chunks in any way, queues the two payloads in order and leaves
/// nothing behind. It is stated of a deny list under which the first
/// payload commits no violation.
pub proof fn reference_stream_in_any_cut(names: Seq<String>, chunks: Seq<Seq<u8>>)
    requires
        joined(chunks) == encode_utf8("data: {\"a\":1}\n\ndata: [DONE]\n\n"@),
        !(judged(names, "{\"a\":1}"@, parsed_text("{\"a\":1}"@)) is Fault),
    ensures
        fed(names, Seq::empty(), chunks).items == seq![
            Emitted::Frame("{\"a\":1}"@),
            Emitted::Frame("[DONE]"@),
        ],
        fed(names, Seq::empty(), chunks).rest == Seq::<u8>::empty(),
{
    reveal_strlit("data: {\"a\":1}\n\ndata: [DONE]\n\n");
    reveal_strlit("{\"a\":1}");
    reveal_strlit("[DONE]");
    reveal_strlit("data: ");
    reveal_strlit("\n\n");
    let payload = "{\"a\":1}"@;
    let done = "[DONE]"@;
    assert(writable(payload));
    assert("data: {\"a\":1}\n\ndata: [DONE]\n\n"@ =~= wire_text(payload) + wire_text(done));
    encoding_of_concat(wire_text(payload), wire_text(done));
    frame_and_terminator_in_any_cut(names, payload, chunks);
}

/// The frames of `payloads`, written one behind the other.
pub open spec fn wire_all(payloads: Seq<Seq<char>>) -> Seq<u8>
    decreases payloads.len(),
{
    if payloads.len() == 0 {
        Seq::empty()
    } else {
        wire_bytes(payloads[0]) + wire_all(payloads.drop_first())
    }
}

/// The items of `payloads` in order, up to and including the first fault.
pub open spec fn read_until_fault(names: Seq<String>, payloads: Seq<Seq<char>>) -> Seq<Emitted>
    decreases payloads.len(),
{
    if payloads.len() == 0 {
        Seq::empty()
    } else {
        let item = judged(names, payloads[0], parsed_text(payloads[0]));
        if item is Fault {
            seq![item]
        } else {
            seq![item] + read_until_fault(names, payloads.drop_first())
        }
    }
}

/// Frames are read in the order in which they were written: one pass over
/// a run of frames queues their items in order and ends with the first
/// fault; nothing of the frames behind a fault is queued, and nothing is
/// left in the buffer.
pub proof fn frames_are_read_in_order(names: Seq<String>, payloads: Seq<Seq<char>>)
    requires
        forall|i: int| 0 <= i < payloads.len() ==> writable(#[trigger] payloads[i]),
    ensures
        scan(names, wire_all(payloads)).items == read_until_fault(names, payloads),
        scan(names, wire_all(payloads)).rest == Seq::<u8>::empty(),
    decreases payloads.len(),
{
    if payloads.len() > 0 {
        let later = payloads.drop_first();
        assert forall|i: int| 0 <= i < later.len() implies writable(#[trigger] later[i]) by {
            assert(later[i] == payloads[i + 1]);
        }
        frames_are_read_in_order(names, later);
        frame_is_read_first(names, payloads[0], wire_all(later));
    }
}

} // verus!
