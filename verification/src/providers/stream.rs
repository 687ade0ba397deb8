//! The streams of providers: bytes in chunks of any size, to the JSON values that they carry.
use vstd::prelude::*;

use crate::error;
use crate::error::{AgentError, ErrorV};
use crate::json;
use crate::json::{add_item, parse, parse_bytes, Json, JsonV};
use crate::protocol;
use crate::protocol::AgentEvent;
use crate::providers;
use crate::providers::{consume_all, ResponseState, Stepped};
use crate::text;
use crate::text::{
    cat2, cat3, decimal, from_chars, lines_of, same_text, strip_prefix_of, to_chars, trim_both_of,
    utf8_text, CharSet,
};

verus! {

/// The bytes that one frame of a stream may have.
pub const MAX_PROVIDER_FRAME_BYTES: usize = 1_048_576;

/// What the size of an unfinished frame leads to.
pub open spec fn frame_verdict(len: nat) -> Option<ErrorV> {
    if len > MAX_PROVIDER_FRAME_BYTES {
        Some(
            ErrorV::Provider(
                "provider stream frame exceeded "@ + text::decimal_text(
                    MAX_PROVIDER_FRAME_BYTES as nat,
                ) + " bytes"@,
            ),
        )
    } else {
        None
    }
}

/// Refuses an unfinished frame that is too large.
pub fn ensure_frame_limit(buffer: &[u8]) -> (result: Result<(), AgentError>)
    ensures
        match result {
            Ok(()) => frame_verdict(buffer@.len()) is None,
            Err(error) => frame_verdict(buffer@.len()) == Some(error@),
        },
{
    if buffer.len() > MAX_PROVIDER_FRAME_BYTES {
        Err(
            AgentError::Provider(
                cat3(
                    "provider stream frame exceeded ",
                    decimal(MAX_PROVIDER_FRAME_BYTES as u128).as_str(),
                    " bytes",
                ),
            ),
        )
    } else {
        Ok(())
    }
}

/// What a part of a stream carries: JSON values, and the error that ends them, if one does.
pub struct Decoded {
    pub values: Vec<Json>,
    pub error: Option<AgentError>,
}

/// What a part of a stream carries, in the model.
#[verifier::ext_equal]
pub struct DecodedV {
    pub values: Seq<JsonV>,
    pub error: Option<ErrorV>,
}

impl View for Decoded {
    type V = DecodedV;

    open spec fn view(&self) -> DecodedV {
        DecodedV {
            values: json::array_view(self.values@),
            error: match self.error {
                Some(error) => Some(error@),
                None => None,
            },
        }
    }
}

/// Nothing.
pub open spec fn nothing() -> DecodedV {
    DecodedV { values: seq![], error: None }
}

/// What two parts of a stream carry together: after an error nothing counts.
pub open spec fn chained(first: DecodedV, second: DecodedV) -> DecodedV {
    if first.error is Some {
        first
    } else {
        DecodedV { values: first.values + second.values, error: second.error }
    }
}

/// What one value, or the failure to read it, adds.
pub open spec fn decoded_value(parsed: Result<JsonV, Seq<char>>, fault: Seq<char>) -> DecodedV {
    match parsed {
        Ok(value) => DecodedV { values: seq![value], error: None },
        Err(error) => DecodedV { values: seq![], error: Some(ErrorV::Provider(fault + error)) },
    }
}

/// Takes one value in, or the failure to read it.
pub fn take_value(decoded: &mut Decoded, parsed: Result<Json, String>, fault: &str)
    requires
        old(decoded).error is None,
    ensures
        final(decoded)@ == chained(old(decoded)@, decoded_value(json::parsed(parsed), fault@)),
{
    match parsed {
        Ok(value) => {
            add_item(&mut decoded.values, value);
            assert(json::array_view(decoded.values@) == json::array_view(old(decoded).values@)
                + seq![value@]);
        },
        Err(error) => {
            decoded.error = Some(AgentError::Provider(cat2(fault, error.as_str())));
            assert(json::array_view(decoded.values@) == json::array_view(old(decoded).values@)
                + Seq::<JsonV>::empty());
        },
    }
}

/// What the lines of a frame of an event stream carry: the JSON of each data line but the one that
/// says that the stream is done.
pub open spec fn line_data(line: Seq<char>) -> Option<Seq<char>> {
    match text::strip_prefix(line, "data:"@) {
        Some(rest) => {
            let data = text::trim_both(CharSet::White, rest);
            if data == "[DONE]"@ {
                None
            } else {
                Some(data)
            }
        },
        None => None,
    }
}

/// What the lines of a frame carry.
pub open spec fn lines_decoded(lines: Seq<Seq<char>>) -> DecodedV
    decreases lines.len(),
{
    if lines.len() == 0 {
        nothing()
    } else {
        let front = lines_decoded(lines.drop_last());
        match line_data(lines.last()) {
            Some(data) => chained(
                front,
                decoded_value(json::json_of_text(data), "invalid SSE JSON: "@),
            ),
            None => front,
        }
    }
}

/// What a frame of an event stream carries.
pub open spec fn frame_decoded(frame: Seq<u8>) -> DecodedV {
    if vstd::utf8::valid_utf8(frame) {
        lines_decoded(text::lines(vstd::utf8::decode_utf8(frame)))
    } else {
        DecodedV {
            values: seq![],
            error: Some(ErrorV::Provider("invalid SSE UTF-8: "@ + text::utf8_fault(frame))),
        }
    }
}

/// Where the first frame of a buffer ends, and how long its delimiter is: an empty line, with line
/// feeds where there are such, else with carriage returns in front of them.
pub open spec fn boundary(bytes: Seq<u8>) -> Option<(nat, nat)> {
    match text::find(bytes, seq![10u8, 10u8]) {
        Some(end) => Some((end, 2)),
        None => match text::find(bytes, seq![13u8, 10u8, 13u8, 10u8]) {
            Some(end) => Some((end, 4)),
            None => None,
        },
    }
}

/// A boundary is inside its buffer.
pub proof fn lemma_boundary(bytes: Seq<u8>)
    ensures
        boundary(bytes) matches Some((end, len)) ==> end + len <= bytes.len() && len > 0,
{
    text::lemma_find_from(bytes, seq![10u8, 10u8], 0);
    text::lemma_find_from(bytes, seq![13u8, 10u8, 13u8, 10u8], 0);
}

/// What the finished frames of a buffer carry.
pub open spec fn frames_decoded(bytes: Seq<u8>) -> DecodedV
    decreases bytes.len(),
{
    match boundary(bytes) {
        Some((end, len)) => {
            proof {
                lemma_boundary(bytes);
            }
            chained(
                frame_decoded(bytes.take(end as int)),
                frames_decoded(bytes.skip((end + len) as int)),
            )
        },
        None => nothing(),
    }
}

/// What is left of a buffer without its finished frames.
pub open spec fn frames_rest(bytes: Seq<u8>) -> Seq<u8>
    decreases bytes.len(),
{
    match boundary(bytes) {
        Some((end, len)) => {
            proof {
                lemma_boundary(bytes);
            }
            frames_rest(bytes.skip((end + len) as int))
        },
        None => bytes,
    }
}

/// What a buffer carries, with the error of an unfinished frame that is too large.
pub open spec fn limited(decoded: DecodedV, rest: nat) -> DecodedV {
    chained(decoded, DecodedV { values: seq![], error: frame_verdict(rest) })
}

/// Where a pattern stands first in a buffer.
pub fn find_bytes(bytes: &[u8], pattern: &[u8]) -> (index: Option<usize>)
    ensures
        match index {
            Some(i) => text::find(bytes@, pattern@) == Some(i as nat),
            None => text::find(bytes@, pattern@) is None,
        },
{
    if pattern.len() > bytes.len() {
        return None;
    }
    let last = bytes.len() - pattern.len();
    let mut i: usize = 0;
    while i <= last
        invariant
            last == bytes.len() - pattern.len(),
            i <= last + 1,
            text::find(bytes@, pattern@) == text::find_from(bytes@, pattern@, i as nat),
        decreases last + 1 - i,
    {
        let mut j: usize = 0;
        while j < pattern.len() && bytes[i + j] == pattern[j]
            invariant
                j <= pattern.len(),
                i + pattern.len() <= bytes.len(),
                forall|k: int| 0 <= k < j ==> bytes@[i + k] == pattern@[k],
            decreases pattern.len() - j,
        {
            j += 1;
        }
        if j == pattern.len() {
            assert(bytes@.subrange(i as int, i + pattern.len()) == pattern@);
            return Some(i);
        }
        assert(!text::occurs_at(bytes@, pattern@, i as int)) by {
            assert(bytes@.subrange(i as int, i + pattern.len())[j as int] == bytes@[i + j]);
        }
        if i == last {
            assert(text::find_from(bytes@, pattern@, (i + 1) as nat) is None);
            return None;
        }
        i += 1;
    }
    None
}

/// Where the first frame of a buffer ends, and how long its delimiter is.
pub fn event_boundary(bytes: &[u8]) -> (found: Option<(usize, usize)>)
    ensures
        match found {
            Some((end, len)) => boundary(bytes@) == Some((end as nat, len as nat)),
            None => boundary(bytes@) is None,
        },
{
    let feeds: [u8; 2] = [10, 10];
    let crlfs: [u8; 4] = [13, 10, 13, 10];
    assert(feeds@ == seq![10u8, 10u8]);
    assert(crlfs@ == seq![13u8, 10u8, 13u8, 10u8]);
    match find_bytes(bytes, &feeds) {
        Some(end) => Some((end, 2)),
        None => match find_bytes(bytes, &crlfs) {
            Some(end) => Some((end, 4)),
            None => None,
        },
    }
}

proof fn lemma_chained(a: DecodedV, b: DecodedV, c: DecodedV)
    ensures
        chained(chained(a, b), c) == chained(a, chained(b, c)),
        chained(a, nothing()) == a,
        chained(nothing(), a) == a,
{
    assert(chained(a, nothing()).values == a.values);
    assert(chained(nothing(), a).values == a.values);
    assert((a.values + b.values) + c.values == a.values + (b.values + c.values));
}

proof fn lemma_lines_stop(lines: Seq<Seq<char>>, i: int)
    requires
        0 <= i <= lines.len(),
        lines_decoded(lines.take(i)).error is Some,
    ensures
        lines_decoded(lines) == lines_decoded(lines.take(i)),
    decreases lines.len(),
{
    if i == lines.len() {
        assert(lines.take(i) == lines);
    } else {
        assert(lines.drop_last().take(i) == lines.take(i));
        lemma_lines_stop(lines.drop_last(), i);
    }
}

/// Takes the data lines of a frame in.
fn take_lines(decoded: &mut Decoded, frame: &str)
    requires
        old(decoded).error is None,
    ensures
        final(decoded)@ == chained(old(decoded)@, lines_decoded(text::lines(frame@))),
{
    let chars = to_chars(frame);
    let list = lines_of(chars.as_slice());
    let ghost all = text::lines(frame@);
    let ghost before = decoded@;
    proof {
        assert(all.take(0) == Seq::<Seq<char>>::empty());
        lemma_chained(before, nothing(), nothing());
    }
    for i in 0..list.len()
        invariant
            text::slice_views(list@) == all,
            all == text::lines(frame@),
            before == old(decoded)@,
            decoded.error is None,
            before.error is None,
            decoded@ == chained(before, lines_decoded(all.take(i as int))),
    {
        let ghost so_far = lines_decoded(all.take(i as int));
        proof {
            assert(all.take(i + 1).drop_last() == all.take(i as int));
            assert(all.take(i + 1).last() == list@[i as int]@);
        }
        if let Some(rest) = strip_prefix_of(list[i], "data:") {
            let data = from_chars(trim_both_of(CharSet::White, rest));
            if !same_text(data.as_str(), "[DONE]") {
                take_value(decoded, parse(data.as_str()), "invalid SSE JSON: ");
                proof {
                    lemma_chained(
                        before,
                        so_far,
                        decoded_value(json::json_of_text(data@), "invalid SSE JSON: "@),
                    );
                }
                if decoded.error.is_some() {
                    proof {
                        lemma_lines_stop(all, i + 1);
                    }
                    return;
                }
            }
        }
    }
    assert(all.take(list.len() as int) == all);
}

/// Takes a frame of an event stream in.
pub fn take_frame(decoded: &mut Decoded, frame: Vec<u8>)
    requires
        old(decoded).error is None,
    ensures
        final(decoded)@ == chained(old(decoded)@, frame_decoded(frame@)),
{
    match utf8_text(frame) {
        Ok(frame) => take_lines(decoded, frame.as_str()),
        Err(error) => {
            decoded.error = Some(
                AgentError::Provider(cat2("invalid SSE UTF-8: ", error.as_str())),
            );
            assert(json::array_view(decoded.values@) == json::array_view(old(decoded).values@)
                + Seq::<JsonV>::empty());
        },
    }
}

/// The unfinished frame of an event stream.
pub struct SseBuffer {
    bytes: Vec<u8>,
}

impl View for SseBuffer {
    type V = Seq<u8>;

    closed spec fn view(&self) -> Seq<u8> {
        self.bytes@
    }
}

/// What is kept of a stream for its next part: nothing after an error.
pub open spec fn kept(decoded: DecodedV, rest: Seq<u8>) -> Seq<u8> {
    if decoded.error is Some {
        seq![]
    } else {
        rest
    }
}

/// Appends bytes.
fn extend(bytes: &mut Vec<u8>, chunk: &[u8])
    ensures
        final(bytes)@ == old(bytes)@ + chunk@,
{
    for i in 0..chunk.len()
        invariant
            bytes@ == old(bytes)@ + chunk@.take(i as int),
    {
        bytes.push(chunk[i]);
        assert(chunk@.take(i + 1) == chunk@.take(i as int).push(chunk@[i as int]));
    }
    assert(chunk@.take(chunk.len() as int) == chunk@);
}

impl SseBuffer {
    /// A stream of which nothing came yet.
    pub fn new() -> (buffer: Self)
        ensures
            buffer@ == Seq::<u8>::empty(),
    {
        SseBuffer { bytes: Vec::new() }
    }

    /// Takes the next bytes of the stream: what the frames carry that they finish, and an error
    /// where the unfinished one is too large. After an error the stream is over.
    pub fn feed(&mut self, chunk: &[u8]) -> (decoded: Decoded)
        ensures
            ({
                let bytes = old(self)@ + chunk@;
                &&& decoded@ == limited(frames_decoded(bytes), frames_rest(bytes).len())
                &&& final(self)@ == kept(decoded@, frames_rest(bytes))
            }),
    {
        let ghost all = self@ + chunk@;
        let mut rest: Vec<u8> = Vec::new();
        std::mem::swap(&mut self.bytes, &mut rest);
        extend(&mut rest, chunk);
        let mut decoded = Decoded { values: Vec::new(), error: None };
        proof {
            assert(decoded@ == nothing());
            lemma_chained(frames_decoded(all), nothing(), nothing());
        }
        loop
            invariant
                self.bytes@ == Seq::<u8>::empty(),
                decoded.error is None,
                frames_decoded(all) == chained(decoded@, frames_decoded(rest@)),
                frames_rest(all) == frames_rest(rest@),
                all == old(self)@ + chunk@,
            ensures
                boundary(rest@) is None,
            decreases rest@.len(),
        {
            let (end, len) = match event_boundary(rest.as_slice()) {
                Some(found) => found,
                None => {
                    break;
                },
            };
            proof {
                lemma_boundary(rest@);
            }
            let ghost whole = rest@;
            let ghost before = decoded@;
            assert(end + len <= rest.len());
            let tail = rest.split_off(end + len);
            rest.truncate(end);
            assert(rest@ == whole.take(end as int));
            assert(tail@ == whole.skip(end + len));
            proof {
                lemma_chained(before, frame_decoded(rest@), frames_decoded(tail@));
            }
            take_frame(&mut decoded, rest);
            if decoded.error.is_some() {
                proof {
                    assert(frames_decoded(all) == decoded@);
                }
                return decoded;
            }
            rest = tail;
        }
        proof {
            lemma_chained(decoded@, nothing(), nothing());
        }
        if let Err(error) = ensure_frame_limit(rest.as_slice()) {
            decoded.error = Some(error);
            assert(decoded@.values + Seq::<JsonV>::empty() == decoded@.values);
            return decoded;
        }
        assert(decoded@.values + Seq::<JsonV>::empty() == decoded@.values);
        self.bytes = rest;
        decoded
    }
}

/// White space in ASCII.
pub open spec fn is_ascii_space(byte: u8) -> bool {
    byte == 9 || byte == 10 || byte == 12 || byte == 13 || byte == 32
}

/// Whether a line holds nothing but white space.
pub open spec fn is_blank(line: Seq<u8>) -> bool {
    forall|i: int| 0 <= i < line.len() ==> is_ascii_space(#[trigger] line[i])
}

/// What a line of a stream of JSON lines carries.
pub open spec fn line_decoded(line: Seq<u8>) -> DecodedV {
    if is_blank(line) {
        nothing()
    } else {
        decoded_value(json::json_of_bytes(line), "invalid NDJSON: "@)
    }
}

/// What the finished lines of a buffer carry.
pub open spec fn json_lines(bytes: Seq<u8>) -> DecodedV
    decreases bytes.len(),
{
    match text::find(bytes, seq![10u8]) {
        Some(end) => {
            proof {
                lemma_feed(bytes);
            }
            chained(
                line_decoded(bytes.take(end as int)),
                json_lines(bytes.skip((end + 1) as int)),
            )
        },
        None => nothing(),
    }
}

/// What is left of a buffer without its finished lines.
pub open spec fn lines_rest(bytes: Seq<u8>) -> Seq<u8>
    decreases bytes.len(),
{
    match text::find(bytes, seq![10u8]) {
        Some(end) => {
            proof {
                lemma_feed(bytes);
            }
            lines_rest(bytes.skip((end + 1) as int))
        },
        None => bytes,
    }
}

/// The first line feed of a buffer.
pub proof fn lemma_feed(bytes: Seq<u8>)
    ensures
        match text::find(bytes, seq![10u8]) {
            Some(k) => {
                &&& k < bytes.len()
                &&& bytes[k as int] == 10
                &&& forall|j: int| 0 <= j < k ==> #[trigger] bytes[j] != 10
            },
            None => forall|j: int| 0 <= j < bytes.len() ==> #[trigger] bytes[j] != 10,
        },
{
    let feed = seq![10u8];
    text::lemma_find_from(bytes, feed, 0);
    assert forall|j: int| 0 <= j < bytes.len() implies text::occurs_at(bytes, feed, j) == (
    #[trigger] bytes[j] == 10) by {
        let here = bytes.subrange(j, j + 1);
        assert(here[0] == bytes[j]);
        if bytes[j] == 10 {
            assert(here == feed);
        }
    }
}

/// Takes a line of JSON in.
pub fn consume_json_line(decoded: &mut Decoded, line: &[u8])
    requires
        old(decoded).error is None,
    ensures
        final(decoded)@ == chained(old(decoded)@, line_decoded(line@)),
{
    proof {
        lemma_chained(old(decoded)@, nothing(), nothing());
    }
    for i in 0..line.len()
        invariant
            decoded == old(decoded),
            decoded.error is None,
            forall|j: int| 0 <= j < i ==> is_ascii_space(#[trigger] line@[j]),
    {
        let byte = line[i];
        if !(byte == 9 || byte == 10 || byte == 12 || byte == 13 || byte == 32) {
            assert(!is_blank(line@));
            take_value(decoded, parse_bytes(line), "invalid NDJSON: ");
            return;
        }
    }
}

/// The unfinished line of a stream of JSON lines.
pub struct NdjsonBuffer {
    bytes: Vec<u8>,
}

impl View for NdjsonBuffer {
    type V = Seq<u8>;

    closed spec fn view(&self) -> Seq<u8> {
        self.bytes@
    }
}

impl NdjsonBuffer {
    /// A stream of which nothing came yet.
    pub fn new() -> (buffer: Self)
        ensures
            buffer@ == Seq::<u8>::empty(),
    {
        NdjsonBuffer { bytes: Vec::new() }
    }

    /// Takes the next bytes of the stream: what the lines carry that they finish, and an error
    /// where the unfinished one is too large. After an error the stream is over.
    pub fn feed(&mut self, chunk: &[u8]) -> (decoded: Decoded)
        ensures
            ({
                let bytes = old(self)@ + chunk@;
                &&& decoded@ == limited(json_lines(bytes), lines_rest(bytes).len())
                &&& final(self)@ == kept(decoded@, lines_rest(bytes))
            }),
    {
        let ghost all = self@ + chunk@;
        let mut rest: Vec<u8> = Vec::new();
        std::mem::swap(&mut self.bytes, &mut rest);
        extend(&mut rest, chunk);
        let mut decoded = Decoded { values: Vec::new(), error: None };
        let feed: [u8; 1] = [10];
        assert(feed@ == seq![10u8]);
        proof {
            assert(decoded@ == nothing());
            lemma_chained(json_lines(all), nothing(), nothing());
        }
        loop
            invariant
                feed@ == seq![10u8],
                self.bytes@ == Seq::<u8>::empty(),
                decoded.error is None,
                json_lines(all) == chained(decoded@, json_lines(rest@)),
                lines_rest(all) == lines_rest(rest@),
                all == old(self)@ + chunk@,
            ensures
                text::find(rest@, seq![10u8]) is None,
            decreases rest@.len(),
        {
            let end = match find_bytes(rest.as_slice(), &feed) {
                Some(found) => found,
                None => {
                    break;
                },
            };
            proof {
                lemma_feed(rest@);
            }
            let ghost whole = rest@;
            let ghost before = decoded@;
            assert(end + 1 <= rest.len());
            let tail = rest.split_off(end + 1);
            rest.truncate(end);
            assert(rest@ == whole.take(end as int));
            assert(tail@ == whole.skip(end + 1));
            proof {
                lemma_chained(before, line_decoded(rest@), json_lines(tail@));
            }
            consume_json_line(&mut decoded, rest.as_slice());
            if decoded.error.is_some() {
                assert(json_lines(all) == decoded@);
                return decoded;
            }
            rest = tail;
        }
        proof {
            lemma_chained(decoded@, nothing(), nothing());
        }
        if let Err(error) = ensure_frame_limit(rest.as_slice()) {
            decoded.error = Some(error);
            assert(decoded@.values + Seq::<JsonV>::empty() == decoded@.values);
            return decoded;
        }
        assert(decoded@.values + Seq::<JsonV>::empty() == decoded@.values);
        self.bytes = rest;
        decoded
    }

    /// Ends the stream: what its last line carries, which may lack a line feed.
    pub fn finish(self) -> (decoded: Decoded)
        ensures
            decoded@ == line_decoded(self@),
    {
        let mut decoded = Decoded { values: Vec::new(), error: None };
        proof {
            assert(decoded@ == nothing());
            lemma_chained(line_decoded(self@), nothing(), nothing());
        }
        consume_json_line(&mut decoded, self.bytes.as_slice());
        decoded
    }
}

/// A stream of JSON lines says the same however it is cut into chunks: two chunks carry what their
/// bytes carry in one piece, and leave the same unfinished line.
pub proof fn law_chunks_do_not_matter(bytes: Seq<u8>, more: Seq<u8>)
    ensures
        json_lines(bytes + more) == chained(json_lines(bytes), json_lines(lines_rest(bytes) + more)),
        lines_rest(bytes + more) == lines_rest(lines_rest(bytes) + more),
    decreases bytes.len(),
{
    let whole = bytes + more;
    lemma_feed(bytes);
    lemma_feed(whole);
    match text::find(bytes, seq![10u8]) {
        None => {
            lemma_chained(json_lines(whole), nothing(), nothing());
        },
        Some(end) => {
            assert(whole[end as int] == 10);
            assert(text::find(whole, seq![10u8]) == Some(end)) by {
                let found = text::find(whole, seq![10u8])->0;
                if found < end {
                    assert(whole[found as int] == bytes[found as int]);
                }
            }
            let line = bytes.take(end as int);
            let tail = bytes.skip((end + 1) as int);
            assert(whole.take(end as int) == line);
            assert(whole.skip((end + 1) as int) == tail + more);
            law_chunks_do_not_matter(tail, more);
            lemma_chained(
                line_decoded(line),
                json_lines(tail),
                json_lines(lines_rest(bytes) + more),
            );
        },
    }
}

/// A pattern stands first where it did, whatever comes after it, and where it stands nowhere it
/// stands in no part either.
proof fn lemma_find_in_parts(bytes: Seq<u8>, more: Seq<u8>, pattern: Seq<u8>)
    ensures
        text::find(bytes, pattern) is Some ==> text::find(bytes + more, pattern) == text::find(
            bytes,
            pattern,
        ),
        text::find(bytes + more, pattern) is None ==> text::find(bytes, pattern) is None
            && forall|k: int|
            0 <= k <= bytes.len() + more.len() ==> text::find(
                #[trigger] (bytes + more).skip(k),
                pattern,
            ) is None,
{
    let whole = bytes + more;
    let n = pattern.len();
    text::lemma_find_from(bytes, pattern, 0);
    text::lemma_find_from(whole, pattern, 0);
    if let Some(end) = text::find(bytes, pattern) {
        assert(whole.subrange(end as int, (end + n) as int) == bytes.subrange(
            end as int,
            (end + n) as int,
        ));
        assert(text::occurs_at(whole, pattern, end as int));
        let found = text::find(whole, pattern)->0;
        if found < end {
            assert(whole.subrange(found as int, (found + n) as int) == bytes.subrange(
                found as int,
                (found + n) as int,
            ));
            assert(text::occurs_at(bytes, pattern, found as int));
        }
    }
    if text::find(whole, pattern) is None {
        assert forall|k: int| 0 <= k <= whole.len() implies text::find(
            #[trigger] whole.skip(k),
            pattern,
        ) is None by {
            let rest = whole.skip(k);
            text::lemma_find_from(rest, pattern, 0);
            if let Some(found) = text::find(rest, pattern) {
                assert(whole.subrange(k + found, k + found + n) == rest.subrange(
                    found as int,
                    (found + n) as int,
                ));
                assert(text::occurs_at(whole, pattern, k + found));
            }
        }
    }
}

/// An event stream says the same however it is cut into chunks, as long as its events end in one
/// way: all with line feeds, or all with carriage returns in front of them.
pub proof fn law_event_chunks_do_not_matter(bytes: Seq<u8>, more: Seq<u8>)
    requires
        text::find(bytes + more, seq![13u8, 10u8, 13u8, 10u8]) is None || text::find(
            bytes + more,
            seq![10u8, 10u8],
        ) is None,
    ensures
        frames_decoded(bytes + more) == chained(
            frames_decoded(bytes),
            frames_decoded(frames_rest(bytes) + more),
        ),
        frames_rest(bytes + more) == frames_rest(frames_rest(bytes) + more),
    decreases bytes.len(),
{
    let whole = bytes + more;
    lemma_find_in_parts(bytes, more, seq![10u8, 10u8]);
    lemma_find_in_parts(bytes, more, seq![13u8, 10u8, 13u8, 10u8]);
    lemma_boundary(bytes);
    match boundary(bytes) {
        None => {
            lemma_chained(frames_decoded(whole), nothing(), nothing());
        },
        Some((end, len)) => {
            assert(boundary(whole) == Some((end, len)));
            let frame = bytes.take(end as int);
            let tail = bytes.skip((end + len) as int);
            assert(whole.take(end as int) == frame);
            assert(whole.skip((end + len) as int) == tail + more);
            law_event_chunks_do_not_matter(tail, more);
            lemma_chained(
                frame_decoded(frame),
                frames_decoded(tail),
                frames_decoded(frames_rest(bytes) + more),
            );
        },
    }
}

/// What handing decoded values to a response comes to: an error of a value, else the one that ended
/// the values.
pub open spec fn delivered<S: ResponseState>(known: S::Known, decoded: DecodedV) -> Stepped<
    S::Known,
> {
    let stepped = providers::steps::<S>(known, decoded.values);
    match (stepped.result, decoded.error) {
        (Ok(()), Some(error)) => Stepped { result: Err(error), ..stepped },
        _ => stepped,
    }
}

/// Hands what a part of a stream carries to a response.
pub fn deliver<S: ResponseState>(
    state: &mut S,
    decoded: Decoded,
    events: &mut Vec<AgentEvent>,
) -> (result: Result<(), AgentError>)
    ensures
        ({
            let stepped = delivered::<S>(old(state).known(), decoded@);
            &&& final(state).known() == stepped.state
            &&& protocol::event_views(final(events)@) == protocol::event_views(old(events)@)
                + stepped.events
            &&& error::unit_result(result) == stepped.result
        }),
{
    match consume_all(state, &decoded.values, events) {
        Err(error) => Err(error),
        Ok(()) => match decoded.error {
            Some(error) => Err(error),
            None => Ok(()),
        },
    }
}

/// Whatever a stream sends, no more than one frame's limit of it is held back.
pub proof fn law_memory_is_bounded(decoded: DecodedV, rest: Seq<u8>)
    ensures
        kept(limited(decoded, rest.len()), rest).len() <= MAX_PROVIDER_FRAME_BYTES,
{
}

/// A finished line of a stream of JSON lines carries its value, and what follows it carries the rest;
/// a blank line carries nothing, and one that is no JSON ends the stream with an error. Nothing is
/// read of an unfinished line.
pub proof fn law_each_line_carries_its_value(line: Seq<u8>, rest: Seq<u8>)
    requires
        !line.contains(10u8),
    ensures
        ({
            let whole = json_lines(line + seq![10u8] + rest);
            let blank = forall|i: int|
                0 <= i < line.len() ==> #[trigger] line[i] == 9 || line[i] == 12 || line[i] == 13
                    || line[i] == 32;
            &&& blank ==> whole == json_lines(rest)
            &&& !blank ==> match json::json_of_bytes(line) {
                Ok(value) => whole.values == seq![value] + json_lines(rest).values && whole.error
                    == json_lines(rest).error,
                Err(error) => whole.values.len() == 0 && whole.error == Some(
                    ErrorV::Provider("invalid NDJSON: "@ + error),
                ),
            }
        }),
        json_lines(line).values.len() == 0 && json_lines(line).error is None,
        lines_rest(line) == line,
        lines_rest(line + seq![10u8] + rest) == lines_rest(rest),
{
    let whole = line + seq![10u8] + rest;
    lemma_feed(whole);
    lemma_feed(line);
    assert(whole[line.len() as int] == 10);
    assert forall|j: int| 0 <= j < line.len() implies #[trigger] whole[j] != 10 by {
        assert(line.contains(line[j]));
    }
    if let Some(k) = text::find(line, seq![10u8]) {
        assert(line.contains(line[k as int]));
    }
    assert(text::find(whole, seq![10u8]) == Some(line.len()));
    assert(whole.take(line.len() as int) == line);
    assert(whole.skip((line.len() + 1) as int) == rest);
    assert(Seq::<JsonV>::empty() + json_lines(rest).values == json_lines(rest).values);
    assert forall|i: int| 0 <= i < line.len() implies #[trigger] line[i] != 10 by {
        assert(line.contains(line[i]));
    }
    if forall|i: int|
        0 <= i < line.len() ==> #[trigger] line[i] == 9 || line[i] == 12 || line[i] == 13
            || line[i] == 32 {
        assert(is_blank(line));
    } else {
        assert(!is_blank(line));
    }
}

/// The last line of a stream counts the same with and without its line feed.
pub proof fn law_the_last_line_needs_no_line_feed(line: Seq<u8>)
    requires
        !line.contains(10u8),
    ensures
        line_decoded(line) == json_lines(line.push(10u8)),
{
    let none = Seq::<u8>::empty();
    law_each_line_carries_its_value(line, none);
    law_each_line_carries_its_value(none, none);
    assert(line + seq![10u8] + none == line.push(10u8));
    lemma_feed(line.push(10u8));
    lemma_feed(none);
    assert(line.push(10u8)[line.len() as int] == 10);
    assert forall|j: int| 0 <= j < line.len() implies #[trigger] line.push(10u8)[j] != 10 by {
        assert(line.contains(line[j]));
    }
    assert(line.push(10u8).take(line.len() as int) == line);
    assert(line.push(10u8).skip(line.len() as int + 1) == none);
    lemma_chained(line_decoded(line), nothing(), nothing());
}

/// A data line of an event carries the JSON behind its field name, without the white space around it,
/// but for the word that ends the stream; a line of another field carries nothing.
pub proof fn law_data_lines_carry_values(lines: Seq<Seq<char>>, line: Seq<char>, data: Seq<char>)
    requires
        lines_decoded(lines).error is None,
    ensures
        lines_decoded(Seq::<Seq<char>>::empty()).values.len() == 0,
        !("data:"@).is_prefix_of(line) ==> lines_decoded(lines.push(line)) == lines_decoded(lines),
        ({
            let value = text::trim_both(CharSet::White, data);
            let whole = lines_decoded(lines.push("data:"@ + data));
            &&& value == "[DONE]"@ ==> whole == lines_decoded(lines)
            &&& value != "[DONE]"@ ==> match json::json_of_text(value) {
                Ok(json) => whole.values == lines_decoded(lines).values.push(json) && whole.error
                    is None,
                Err(error) => whole.values == lines_decoded(lines).values && whole.error == Some(
                    ErrorV::Provider("invalid SSE JSON: "@ + error),
                ),
            }
        }),
{
    assert(lines.push(line).drop_last() == lines);
    let told = "data:"@ + data;
    assert(lines.push(told).drop_last() == lines);
    text::law_prefixes_are_taken_off(line, "data:"@);
    text::law_prefixes_are_taken_off(data, "data:"@);
    let front = lines_decoded(lines).values;
    assert(front + Seq::<JsonV>::empty() == front);
    if let Ok(json) = json::json_of_text(text::trim_both(CharSet::White, data)) {
        assert(front + seq![json] == front.push(json));
    }
}

/// After an error nothing of a line counts any more.
pub proof fn law_nothing_counts_after_an_error(lines: Seq<Seq<char>>, line: Seq<char>)
    requires
        lines_decoded(lines).error is Some,
    ensures
        lines_decoded(lines.push(line)) == lines_decoded(lines),
{
    assert(lines.push(line).drop_last() == lines);
}

/// An event ends at the first empty line, and what follows it carries the rest; nothing is read of an
/// event that has not ended. An event whose bytes are no text ends the stream with an error.
pub proof fn law_events_end_at_empty_lines(frame: Seq<u8>, rest: Seq<u8>)
    requires
        text::find(frame + seq![10u8, 10u8] + rest, seq![10u8, 10u8]) == Some(frame.len()),
    ensures
        ({
            let whole = frames_decoded(frame + seq![10u8, 10u8] + rest);
            if vstd::utf8::valid_utf8(frame) {
                let first = lines_decoded(text::lines(vstd::utf8::decode_utf8(frame)));
                &&& first.error is Some ==> whole == first
                &&& first.error is None ==> whole.values == first.values + frames_decoded(
                    rest,
                ).values && whole.error == frames_decoded(rest).error
            } else {
                &&& whole.values.len() == 0
                &&& whole.error == Some(
                    ErrorV::Provider("invalid SSE UTF-8: "@ + text::utf8_fault(frame)),
                )
            }
        }),
        frames_rest(frame + seq![10u8, 10u8] + rest) == frames_rest(rest),
        boundary(rest) is None ==> frames_decoded(rest).values.len() == 0 && frames_decoded(
            rest,
        ).error is None && frames_rest(rest) == rest,
{
    let whole = frame + seq![10u8, 10u8] + rest;
    assert(whole.take(frame.len() as int) == frame);
    assert(whole.skip((frame.len() + 2) as int) == rest);
}

/// Where the events of a stream end with carriage returns, they end at the first empty line of that
/// kind.
pub proof fn law_events_end_at_returned_lines(frame: Seq<u8>, rest: Seq<u8>)
    requires
        text::find(frame + seq![13u8, 10u8, 13u8, 10u8] + rest, seq![10u8, 10u8]) is None,
        text::find(
            frame + seq![13u8, 10u8, 13u8, 10u8] + rest,
            seq![13u8, 10u8, 13u8, 10u8],
        ) == Some(frame.len()),
    ensures
        ({
            let whole = frames_decoded(frame + seq![13u8, 10u8, 13u8, 10u8] + rest);
            vstd::utf8::valid_utf8(frame) ==> {
                let first = lines_decoded(text::lines(vstd::utf8::decode_utf8(frame)));
                &&& first.error is Some ==> whole == first
                &&& first.error is None ==> whole.values == first.values + frames_decoded(
                    rest,
                ).values && whole.error == frames_decoded(rest).error
            }
        }),
        frames_rest(frame + seq![13u8, 10u8, 13u8, 10u8] + rest) == frames_rest(rest),
{
    let whole = frame + seq![13u8, 10u8, 13u8, 10u8] + rest;
    assert(whole.take(frame.len() as int) == frame);
    assert(whole.skip((frame.len() + 4) as int) == rest);
}

/// A frame that is not finished is refused exactly where it is larger than the limit, and then
/// nothing of it is kept; what was finished before it counts either way.
pub proof fn law_large_frames_are_refused(decoded: DecodedV, rest: Seq<u8>)
    requires
        decoded.error is None,
    ensures
        limited(decoded, rest.len()).values == decoded.values,
        limited(decoded, rest.len()).error is Some <==> rest.len() > 1_048_576,
        rest.len() <= 1_048_576 ==> kept(limited(decoded, rest.len()), rest) == rest,
        rest.len() > 1_048_576 ==> kept(limited(decoded, rest.len()), rest).len() == 0,
{
    assert(decoded.values + Seq::<JsonV>::empty() == decoded.values);
}

/// What a part of a stream carries is handed on whole: all values before the error that ended them,
/// and that error only where no value was refused.
pub proof fn law_values_come_before_errors<S: ResponseState>(known: S::Known, decoded: DecodedV)
    ensures
        ({
            let stepped = providers::steps::<S>(known, decoded.values);
            let result = delivered::<S>(known, decoded);
            &&& result.state == stepped.state
            &&& result.events == stepped.events
            &&& stepped.result is Err ==> result.result == stepped.result
            &&& stepped.result is Ok ==> match decoded.error {
                Some(error) => result.result == Err::<(), ErrorV>(error),
                None => result.result is Ok,
            }
        }),
{
}

} // verus!
