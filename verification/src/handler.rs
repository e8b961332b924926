//! The frame codec: length-prefixed JSON messages on a byte stream.
//!
//! Every message in both directions is the ASCII decimal byte length of a
//! JSON payload, immediately followed by the payload, with no separator.
//! The decoder additionally tolerates stray `\n` and `\r` bytes before and
//! among the digits of the length.

use vstd::prelude::*;
use crate::error::Error;
use crate::event::{event_matches, valid_event_json, Event};
use crate::json::{json_has_key, json_parse, JsonSpec, JsonValue};
use crate::request::Request;
use crate::response::Response;
use crate::transport::Transport;

verus! {

/// Whether the byte is an ASCII decimal digit.
pub open spec fn is_digit(b: u8) -> bool {
    0x30 <= b && b < 0x3A
}

/// Whether the byte is a newline or carriage return.
pub open spec fn is_newline(b: u8) -> bool {
    b == 0x0au8 || b == 0x0du8
}

/// The numeric value of a digit byte.
pub open spec fn digit_val(b: u8) -> nat {
    (b - 0x30) as nat
}

/// The scan for a length prefix, from position `i` with the length
/// accumulated so far: digits extend the length, newlines are skipped,
/// and the first other byte (or the end of the buffer) stops the scan.
/// Yields the position where the payload would begin and the length.
pub open spec fn scan(buf: Seq<u8>, i: nat, acc: nat) -> (nat, nat)
    decreases buf.len() - i,
    when i <= buf.len()
{
    if i >= buf.len() {
        (i, acc)
    } else if is_digit(buf[i as int]) {
        scan(buf, (i + 1) as nat, acc * 10 + digit_val(buf[i as int]))
    } else if is_newline(buf[i as int]) {
        scan(buf, (i + 1) as nat, acc)
    } else {
        (i, acc)
    }
}

/// Where the payload of the buffer's first frame would begin.
pub open spec fn scan_offset(buf: Seq<u8>) -> nat {
    scan(buf, 0, 0).0
}

/// The payload length announced by the buffer's length prefix.
pub open spec fn scan_len(buf: Seq<u8>) -> nat {
    scan(buf, 0, 0).1
}

/// Whether the buffer holds a complete frame: a positive announced
/// length, and at least that many bytes after the prefix.
pub open spec fn frame_found(buf: Seq<u8>) -> bool {
    scan_len(buf) > 0 && scan_offset(buf) + scan_len(buf) <= buf.len()
}

/// The payload of the buffer's first complete frame.
pub open spec fn frame_payload(buf: Seq<u8>) -> Seq<u8> {
    buf.subrange(scan_offset(buf) as int, (scan_offset(buf) + scan_len(buf)) as int)
}

/// What remains of the buffer once its first frame is consumed.
pub open spec fn frame_rest(buf: Seq<u8>) -> Seq<u8> {
    buf.skip((scan_offset(buf) + scan_len(buf)) as int)
}

/// The length accumulated by reading decimal digits left to right,
/// starting from `acc`.
pub open spec fn fold_digits(acc: nat, s: Seq<u8>) -> nat
    decreases s.len(),
{
    if s.len() == 0 {
        acc
    } else {
        fold_digits(acc * 10 + digit_val(s[0]), s.drop_first())
    }
}

/// Whether every byte of the sequence is an ASCII decimal digit.
pub open spec fn all_digits(s: Seq<u8>) -> bool {
    forall|j: int| 0 <= j < s.len() ==> is_digit(#[trigger] s[j])
}

/// Whether every byte of the sequence is a newline or carriage return.
pub open spec fn all_newlines(s: Seq<u8>) -> bool {
    forall|j: int| 0 <= j < s.len() ==> is_newline(#[trigger] s[j])
}

/// The ASCII decimal digits of a number, most significant first.
pub open spec fn dec_digits(n: nat) -> Seq<u8>
    decreases n,
{
    if n < 10 {
        seq![(0x30 + n) as u8]
    } else {
        proof {
            assert(n / 10 < n) by (nonlinear_arith)
                requires
                    n >= 10,
            ;
        }
        dec_digits(n / 10).push((0x30 + n % 10) as u8)
    }
}

/// Scanning a run of digits extends the accumulated length by folding
/// those digits in.
proof fn lemma_scan_digits(buf: Seq<u8>, i: nat, acc: nat, k: nat)
    requires
        i + k <= buf.len(),
        forall|j: int| i <= j < i + k ==> is_digit(#[trigger] buf[j]),
    ensures
        scan(buf, i, acc) == scan(
            buf,
            (i + k) as nat,
            fold_digits(acc, buf.subrange(i as int, (i + k) as int)),
        ),
    decreases k,
{
    let region = buf.subrange(i as int, (i + k) as int);
    if k == 0 {
        assert(region =~= Seq::<u8>::empty());
    } else {
        let d = digit_val(buf[i as int]);
        assert(region[0] == buf[i as int]);
        assert(region.drop_first() =~= buf.subrange((i + 1) as int, (i + k) as int));
        lemma_scan_digits(buf, (i + 1) as nat, acc * 10 + d, (k - 1) as nat);
    }
}

/// Scanning a run of newlines leaves the accumulated length unchanged.
proof fn lemma_scan_newlines(buf: Seq<u8>, i: nat, acc: nat, k: nat)
    requires
        i + k <= buf.len(),
        forall|j: int| i <= j < i + k ==> is_newline(#[trigger] buf[j]),
    ensures
        scan(buf, i, acc) == scan(buf, (i + k) as nat, acc),
    decreases k,
{
    if k > 0 {
        lemma_scan_newlines(buf, (i + 1) as nat, acc, (k - 1) as nat);
    }
}

/// Folding one more digit multiplies the value by ten and adds it.
proof fn lemma_fold_push(acc: nat, s: Seq<u8>, d: u8)
    ensures
        fold_digits(acc, s.push(d)) == fold_digits(acc, s) * 10 + digit_val(d),
    decreases s.len(),
{
    if s.len() == 0 {
        assert(s.push(d)[0] == d);
        assert(s.push(d).drop_first() =~= Seq::<u8>::empty());
        assert(fold_digits(acc, s.push(d)) == fold_digits(acc * 10 + digit_val(d), Seq::empty()));
    } else {
        assert(s.push(d)[0] == s[0]);
        assert(s.push(d).drop_first() =~= s.drop_first().push(d));
        lemma_fold_push(acc * 10 + digit_val(s[0]), s.drop_first(), d);
    }
}

/// The decimal digits of a number are digits, there is at least one of
/// them, and folding them back yields the number.
pub proof fn lemma_dec_digits(n: nat)
    ensures
        dec_digits(n).len() >= 1,
        all_digits(dec_digits(n)),
        fold_digits(0, dec_digits(n)) == n,
    decreases n,
{
    if n < 10 {
        assert(dec_digits(n) =~= seq![(0x30 + n) as u8]);
        assert(fold_digits(0, dec_digits(n)) == fold_digits(0 * 10 + digit_val((0x30 + n) as u8),
            dec_digits(n).drop_first(),
        ));
        assert(dec_digits(n).drop_first() =~= Seq::<u8>::empty());
    } else {
        assert(n / 10 < n) by (nonlinear_arith)
            requires
                n >= 10,
        ;
        lemma_dec_digits(n / 10);
        let d = (0x30 + n % 10) as u8;
        lemma_fold_push(0, dec_digits(n / 10), d);
        assert(fold_digits(0, dec_digits(n)) == (n / 10) * 10 + n % 10);
        assert((n / 10) * 10 + n % 10 == n) by {
            vstd::arithmetic::div_mod::lemma_fundamental_div_mod(n as int, 10);
        }
        assert forall|j: int| 0 <= j < dec_digits(n).len() implies is_digit(
            #[trigger] dec_digits(n)[j],
        ) by {
            if j == dec_digits(n).len() - 1 {
                assert(dec_digits(n)[j] == d);
            } else {
                assert(dec_digits(n)[j] == dec_digits(n / 10)[j]);
            }
        }
    }
}

/// How the scan reads a buffer that starts with newline noise, a decimal
/// length, more newline noise, and then anything that does not continue
/// the prefix: the scan stops right after the noise, having read exactly
/// the encoded length.
proof fn lemma_scan_frame(nl1: Seq<u8>, n: nat, nl2: Seq<u8>, body: Seq<u8>)
    requires
        all_newlines(nl1),
        all_newlines(nl2),
        body.len() > 0 ==> !is_digit(body[0]) && !is_newline(body[0]),
    ensures
        ({
            let buf = nl1 + dec_digits(n) + nl2 + body;
            scan(buf, 0, 0) == (((nl1.len() + dec_digits(n).len() + nl2.len()) as nat, n))
        }),
{
    let dec = dec_digits(n);
    let buf = nl1 + dec + nl2 + body;
    lemma_dec_digits(n);
    let o1 = nl1.len();
    let o2 = o1 + dec.len();
    let o3 = o2 + nl2.len();
    assert forall|j: int| 0 <= j < o1 implies is_newline(#[trigger] buf[j]) by {
        assert(buf[j] == nl1[j]);
    }
    lemma_scan_newlines(buf, 0, 0, nl1.len());
    assert forall|j: int| o1 <= j < o2 implies is_digit(#[trigger] buf[j]) by {
        assert(buf[j] == dec[j - o1]);
    }
    lemma_scan_digits(buf, o1 as nat, 0, dec.len());
    assert(buf.subrange(o1 as int, o2 as int) =~= dec);
    assert forall|j: int| o2 <= j < o3 implies is_newline(#[trigger] buf[j]) by {
        assert(buf[j] == nl2[j - o2]);
    }
    lemma_scan_newlines(buf, o2 as nat, n, nl2.len());
    if body.len() > 0 {
        assert(buf[o3 as int] == body[0]);
        assert(scan(buf, o3 as nat, n) == ((o3 as nat, n)));
    } else {
        assert(o3 == buf.len());
        assert(scan(buf, o3 as nat, n) == ((o3 as nat, n)));
    }
}

/// Framing round-trip: a payload that does not begin with a digit or a
/// newline, written after the decimal byte count of the payload, is found
/// again by the scan, whatever follows the frame; and exactly the bytes
/// after the frame remain.
pub proof fn lemma_frame_round_trip(payload: Seq<u8>, rest: Seq<u8>)
    requires
        payload.len() > 0,
        !is_digit(payload[0]),
        !is_newline(payload[0]),
    ensures
        ({
            let buf = dec_digits(payload.len()) + payload + rest;
            &&& frame_found(buf)
            &&& scan_offset(buf) == dec_digits(payload.len()).len()
            &&& scan_len(buf) == payload.len()
            &&& frame_payload(buf) == payload
            &&& frame_rest(buf) == rest
        }),
{
    let dec = dec_digits(payload.len());
    let buf = dec + payload + rest;
    let body = payload + rest;
    assert(body[0] == payload[0]);
    lemma_scan_frame(Seq::empty(), payload.len(), Seq::empty(), body);
    assert(buf =~= Seq::<u8>::empty() + dec + Seq::<u8>::empty() + body);
    assert(frame_payload(buf) =~= payload);
    assert(frame_rest(buf) =~= rest);
}

/// Framing round-trip at the document level: a well-formed JSON object,
/// serialized and framed, is decoded to the very document that was
/// encoded. The serialized text of an object begins with a brace, which
/// neither extends nor ends the length prefix, so the scan stops exactly
/// where the payload begins.
pub proof fn lemma_json_frame_round_trip(v: JsonSpec, text: Seq<u8>)
    requires
        crate::json::json_wf(v),
        v is Obj,
        text == crate::json::json_text(v),
        text.len() > 0,
        text[0] == 123u8,
    ensures
        ({
            let buf = dec_digits(text.len()) + text;
            &&& frame_found(buf)
            &&& frame_payload(buf) == text
            &&& frame_rest(buf) == Seq::<u8>::empty()
            &&& json_parse(frame_payload(buf)) == json_parse(text)
        }),
{
    lemma_frame_round_trip(text, Seq::empty());
    assert(dec_digits(text.len()) + text =~= dec_digits(text.len()) + text + Seq::<u8>::empty());
}

/// Partial-frame accumulation: however much of a frame short of all of it
/// the buffer holds, the scan does not find a frame in it.
pub proof fn lemma_partial_frame(payload: Seq<u8>, m: int)
    requires
        payload.len() > 0,
        !is_digit(payload[0]),
        !is_newline(payload[0]),
        0 <= m < dec_digits(payload.len()).len() + payload.len(),
    ensures
        !frame_found((dec_digits(payload.len()) + payload).take(m)),
{
    let dec = dec_digits(payload.len());
    let full = dec + payload;
    let pre = full.take(m);
    lemma_dec_digits(payload.len());
    if m <= dec.len() {
        assert forall|j: int| 0 <= j < m implies is_digit(#[trigger] pre[j]) by {
            assert(pre[j] == dec[j]);
        }
        lemma_scan_digits(pre, 0, 0, m as nat);
        assert(scan(pre, m as nat, fold_digits(0, pre.subrange(0, m))) == ((
            m as nat,
            fold_digits(0, pre.subrange(0, m)),
        )));
    } else {
        let body = payload.take(m - dec.len());
        assert(body[0] == payload[0]);
        lemma_scan_frame(Seq::empty(), payload.len(), Seq::empty(), body);
        assert(pre =~= Seq::<u8>::empty() + dec + Seq::<u8>::empty() + body);
    }
}

/// Multiple frames in one read: a buffer holding two complete
/// back-to-back frames yields the first payload, and leaves the second
/// frame intact, which then yields the second payload.
pub proof fn lemma_two_frames(p1: Seq<u8>, p2: Seq<u8>)
    requires
        p1.len() > 0,
        !is_digit(p1[0]),
        !is_newline(p1[0]),
        p2.len() > 0,
        !is_digit(p2[0]),
        !is_newline(p2[0]),
    ensures
        ({
            let f2 = dec_digits(p2.len()) + p2;
            let buf = dec_digits(p1.len()) + p1 + f2;
            &&& frame_found(buf)
            &&& frame_payload(buf) == p1
            &&& frame_rest(buf) == f2
            &&& frame_found(f2)
            &&& frame_payload(f2) == p2
            &&& frame_rest(f2) == Seq::<u8>::empty()
        }),
{
    let f2 = dec_digits(p2.len()) + p2;
    lemma_frame_round_trip(p1, f2);
    lemma_frame_round_trip(p2, Seq::empty());
    assert(f2 =~= dec_digits(p2.len()) + p2 + Seq::<u8>::empty());
}

/// Newline tolerance: a frame whose length prefix is surrounded by
/// newline noise decodes to the same payload as the frame without noise.
pub proof fn lemma_newline_tolerance(
    nl1: Seq<u8>,
    nl2: Seq<u8>,
    payload: Seq<u8>,
    rest: Seq<u8>,
)
    requires
        all_newlines(nl1),
        all_newlines(nl2),
        payload.len() > 0,
        !is_digit(payload[0]),
        !is_newline(payload[0]),
    ensures
        ({
            let noisy = nl1 + dec_digits(payload.len()) + nl2 + payload + rest;
            let plain = dec_digits(payload.len()) + payload + rest;
            &&& frame_found(noisy)
            &&& frame_found(plain)
            &&& frame_payload(noisy) == frame_payload(plain)
            &&& frame_payload(noisy) == payload
            &&& frame_rest(noisy) == rest
            &&& frame_rest(plain) == rest
        }),
{
    let dec = dec_digits(payload.len());
    let noisy = nl1 + dec + nl2 + payload + rest;
    let body = payload + rest;
    assert(body[0] == payload[0]);
    lemma_scan_frame(nl1, payload.len(), nl2, body);
    assert(noisy =~= nl1 + dec + nl2 + body);
    lemma_dec_digits(payload.len());
    assert(frame_payload(noisy) =~= payload);
    assert(frame_rest(noisy) =~= rest);
    lemma_frame_round_trip(payload, rest);
}

/// One complete message decoded from the stream: an unsolicited event,
/// or the response to an earlier request.
pub enum Message {
    /// The response to an earlier request.
    Response(Response),
    /// An unsolicited event.
    Event(Event),
}

/// Whether the message is the classification of the JSON document: any
/// object with an `event` key is an event, anything else is a response.
pub open spec fn message_matches(m: Message, j: JsonSpec) -> bool {
    match m {
        Message::Event(e) => json_has_key(j, "event"@) && valid_event_json(j) && event_matches(
            e,
            j,
        ),
        Message::Response(resp) => !json_has_key(j, "event"@) && resp.spec_data() == j,
    }
}

/// The saturation cap of the length accumulator: above any usize, so a
/// saturated length can never look like a complete frame.
const LEN_CAP: u128 = 0x1_0000_0000_0000_0000;

/// The frame codec around one transport: it accumulates the bytes read,
/// carves complete frames out of them, and writes outgoing frames.
pub struct Handler<T> {
    socket: T,
    buffer: Vec<u8>,
    received: Ghost<Seq<JsonSpec>>,
    sent: Ghost<Seq<JsonSpec>>,
    sent_bytes: Ghost<Seq<u8>>,
}

impl<T: Transport> Handler<T> {
    /// The transport the codec drives, as contracts see it.
    pub closed spec fn spec_socket(&self) -> T {
        self.socket
    }

    /// The bytes read from the transport and not yet consumed by a frame.
    pub closed spec fn spec_buffer(&self) -> Seq<u8> {
        self.buffer@
    }

    /// The payloads of all frames decoded so far, in order.
    pub closed spec fn received_log(&self) -> Seq<JsonSpec> {
        self.received@
    }

    /// The payloads of all frames written so far, in order.
    pub closed spec fn sent_log(&self) -> Seq<JsonSpec> {
        self.sent@
    }

    /// The bytes of all frames written completely so far: for each frame
    /// the decimal byte count of its serialized payload, then the
    /// payload. A write that failed partway may have handed the
    /// transport a prefix beyond this log; the session closes then.
    pub closed spec fn sent_bytes_log(&self) -> Seq<u8> {
        self.sent_bytes@
    }

    /// A codec around the given transport, with an empty buffer.
    pub fn new(socket: T) -> (r: Handler<T>)
        ensures
            r.spec_socket() == socket,
            r.spec_buffer() == Seq::<u8>::empty(),
            r.received_log() == Seq::<JsonSpec>::empty(),
            r.sent_log() == Seq::<JsonSpec>::empty(),
            r.sent_bytes_log() == Seq::<u8>::empty(),
    {
        Handler {
            socket,
            buffer: Vec::new(),
            received: Ghost(Seq::empty()),
            sent: Ghost(Seq::empty()),
            sent_bytes: Ghost(Seq::empty()),
        }
    }

    /// The transport this codec reads and writes.
    pub fn socket_ref(&self) -> (r: &T)
        ensures
            *r == self.spec_socket(),
    {
        &self.socket
    }

    /// Find where a complete message is located in the buffer: the
    /// position where its payload begins, and the payload's length.
    pub fn find_message(&self) -> (r: Option<(usize, usize)>)
        ensures
            match r {
                Some(found) => frame_found(self.spec_buffer()) && found.0 == scan_offset(
                    self.spec_buffer(),
                ) && found.1 == scan_len(self.spec_buffer()),
                None => !frame_found(self.spec_buffer()),
            },
    {
        let buf_len = self.buffer.len();
        let mut offset: usize = 0;
        let mut acc: u128 = 0;
        let ghost mut tacc: nat = 0nat;
        while offset < buf_len && (self.buffer[offset] >= 0x30 && self.buffer[offset] < 0x3A
            || self.buffer[offset] == 0x0a || self.buffer[offset] == 0x0d)
            invariant
                0 <= offset <= buf_len,
                buf_len == self.buffer@.len(),
                scan(self.buffer@, 0, 0) == scan(self.buffer@, offset as nat, tacc),
                acc <= LEN_CAP,
                tacc <= LEN_CAP ==> acc == tacc,
                tacc > LEN_CAP ==> acc == LEN_CAP,
            decreases buf_len - offset,
        {
            let b = self.buffer[offset];
            if b >= 0x30 && b < 0x3A {
                let d = (b - 0x30) as u128;
                proof {
                    tacc = tacc * 10 + digit_val(b);
                }
                acc = acc * 10 + d;
                if acc > LEN_CAP {
                    acc = LEN_CAP;
                }
            }
            offset += 1;
        }
        proof {
            assert(scan(self.buffer@, offset as nat, tacc) == ((offset as nat, tacc)));
        }
        if acc > 0 && acc <= (buf_len - offset) as u128 {
            let length = acc as usize;
            Some((offset, length))
        } else {
            None
        }
    }

    /// Carve the frame at the given position out of the buffer and
    /// classify its payload. The frame's bytes are consumed whether or
    /// not the payload decodes: on a decode failure the stream cannot be
    /// resynchronized anyway.
    fn make_message(&mut self, offset: usize, length: usize) -> (r: Result<Message, Error>)
        requires
            offset + length <= old(self).spec_buffer().len(),
        ensures
            final(self).spec_buffer() == old(self).spec_buffer().skip(offset + length),
            final(self).sent_log() == old(self).sent_log(),
            final(self).sent_bytes_log() == old(self).sent_bytes_log(),
            ({
                let payload = old(self).spec_buffer().subrange(
                    offset as int,
                    offset + length,
                );
                match r {
                    Ok(m) => json_parse(payload) matches Some(j) && message_matches(m, j)
                        && final(self).received_log() == old(self).received_log().push(j),
                    Err(e) => final(self).received_log() == old(self).received_log() && (
                    json_parse(payload) is None && e is JsonParserError || (json_parse(payload)
                        matches Some(j) && json_has_key(j, "event"@) && !valid_event_json(j) && e
                        is InvalidJsonError)),
                }
            }),
    {
        let buf_len = self.buffer.len();
        let end = offset + length;
        let decoded = {
            let payload: &[u8] = &self.buffer.as_slice()[offset..end];
            crate::json::json_from_bytes(payload)
        };
        let tail = self.buffer.split_off(end);
        let ghost kept = self.sent@;
        self.buffer = tail;
        proof {
            assert(self.buffer@ =~= old(self).spec_buffer().skip(offset + length));
        }
        match decoded {
            Err(e) => Err(e),
            Ok(v) => {
                let ghost jv = v@;
                if crate::event::is_event_json(&v) {
                    match Event::from_json(&v) {
                        Ok(evt) => {
                            self.received = Ghost(self.received@.push(jv));
                            Ok(Message::Event(evt))
                        },
                        Err(err) => Err(Error::InvalidJsonError(err)),
                    }
                } else {
                    match Response::from_json(v) {
                        Ok(resp) => {
                            self.received = Ghost(self.received@.push(jv));
                            Ok(Message::Response(resp))
                        },
                        Err(err) => Err(Error::InvalidJsonError(err)),
                    }
                }
            },
        }
    }

    /// Retrieve new data from the socket and append it to the buffer. An
    /// empty read means the stream has ended, which is a transport error.
    fn retrieve_from_socket(&mut self) -> (r: Result<(), Error>)
        ensures
            final(self).sent_log() == old(self).sent_log(),
            final(self).sent_bytes_log() == old(self).sent_bytes_log(),
            final(self).received_log() == old(self).received_log(),
            match r {
                Ok(_) => ({
                    &&& final(self).spec_buffer().len() > old(self).spec_buffer().len()
                    &&& final(self).spec_buffer().take(old(self).spec_buffer().len() as int)
                        == old(self).spec_buffer()
                }),
                Err(e) => final(self).spec_buffer() == old(self).spec_buffer() && e is IoError,
            },
    {
        let mut data = match self.socket.read_bytes() {
            Ok(data) => data,
            Err(e) => {
                return Err(e);
            },
        };
        if data.len() == 0 {
            return Err(Error::IoError("end of stream".to_owned()));
        }
        self.buffer.append(&mut data);
        proof {
            assert(self.buffer@.take(old(self).spec_buffer().len() as int) =~= old(
                self,
            ).spec_buffer());
        }
        Ok(())
    }

    /// Read one complete message from the stream, polling the transport
    /// (and growing the buffer) until a whole frame has arrived, then
    /// classify it. The wait is a poll loop so that a bound or timeout
    /// can be layered on; the number of transport reads for one message
    /// is capped at a bound no real stream reaches.
    #[verifier::loop_isolation(false)]
    pub fn read(&mut self) -> (r: Result<Message, Error>)
        ensures
            final(self).sent_log() == old(self).sent_log(),
            final(self).sent_bytes_log() == old(self).sent_bytes_log(),
            match r {
                Ok(m) => final(self).received_log().len() == old(self).received_log().len() + 1
                    && final(self).received_log().take(old(self).received_log().len() as int)
                    == old(self).received_log() && message_matches(
                    m,
                    final(self).received_log().last(),
                ),
                Err(e) => final(self).received_log() == old(self).received_log() && (e is IoError
                    || e is JsonParserError || e is InvalidJsonError),
            },
    {
        let ghost orig_received = self.received@;
        let ghost orig_sent = self.sent@;
        let ghost orig_sent_bytes = self.sent_bytes@;
        let mut budget: usize = usize::MAX;
        loop
            invariant
                self.received@ == orig_received,
                self.sent@ == orig_sent,
                self.sent_bytes@ == orig_sent_bytes,
            decreases budget,
        {
            if let Some(found) = self.find_message() {
                break ;
            }
            if budget == 0 {
                return Err(Error::IoError("read limit reached".to_owned()));
            }
            budget = budget - 1;
            match self.retrieve_from_socket() {
                Ok(_) => {},
                Err(e) => {
                    return Err(e);
                },
            }
        }
        let found = self.find_message();
        match found {
            Some(at) => self.make_message(at.0, at.1),
            None => Err(Error::IoError("lost frame".to_owned())),
        }
    }

    /// Serialize the request, frame it, and write it to the stream: the
    /// decimal byte count of the payload, then the payload.
    pub fn write(&mut self, request: Request) -> (r: Result<(), Error>)
        requires
            !(request matches Request::Unsubscribe(crate::event::EventType::Command(_))),
        ensures
            final(self).received_log() == old(self).received_log(),
            final(self).spec_buffer() == old(self).spec_buffer(),
            match r {
                Ok(_) => ({
                    let text = crate::json::json_text(request.wire_json());
                    &&& final(self).sent_log() == old(self).sent_log().push(request.wire_json())
                    &&& final(self).sent_bytes_log() == old(self).sent_bytes_log() + dec_digits(
                        text.len(),
                    ) + text
                }),
                Err(e) => ({
                    &&& final(self).sent_log() == old(self).sent_log()
                    &&& final(self).sent_bytes_log() == old(self).sent_bytes_log()
                    &&& e is IoError
                }),
            },
    {
        let json = request.to_json();
        let payload = crate::json::json_to_bytes(&json);
        let header = decimal_bytes(payload.len());
        match self.socket.write_bytes(header.as_slice()) {
            Ok(_) => {},
            Err(e) => {
                return Err(e);
            },
        }
        match self.socket.write_bytes(payload.as_slice()) {
            Ok(_) => {},
            Err(e) => {
                return Err(e);
            },
        }
        self.sent = Ghost(self.sent@.push(json@));
        self.sent_bytes = Ghost(self.sent_bytes@ + header@ + payload@);
        Ok(())
    }
}

/// The ASCII decimal digits of a number.
pub fn decimal_bytes(n: usize) -> (r: Vec<u8>)
    ensures
        r@ == dec_digits(n as nat),
    decreases n,
{
    if n < 10 {
        let mut v: Vec<u8> = Vec::new();
        v.push(0x30u8 + (n as u8));
        proof {
            assert(v@ =~= dec_digits(n as nat));
        }
        v
    } else {
        proof {
            assert(n / 10 < n) by (nonlinear_arith)
                requires
                    n >= 10,
            ;
        }
        let mut v = decimal_bytes(n / 10);
        v.push(0x30u8 + ((n % 10) as u8));
        proof {
            assert(v@ =~= dec_digits(n as nat));
        }
        v
    }
}

} // verus!
