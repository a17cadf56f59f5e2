//! Incremental decoding of response bodies: a line decoder that turns a
//! newline-delimited stream of JSON documents, arriving in arbitrary chunks,
//! into one decoded record per complete line, and a stream reader that
//! bridges a chunk-producing source into pull-based byte reads.

use vstd::prelude::*;

use crate::error::Error;

verus! {

/// The record separator of a line-delimited response body.
pub const NL: u8 = 10;

/// Index of the first newline byte of `s`, or `s.len()` when `s` holds none.
pub open spec fn first_nl(s: Seq<u8>) -> int
    decreases s.len(),
{
    if s.len() == 0 {
        0
    } else if s[0] == NL {
        0
    } else {
        1 + first_nl(s.skip(1))
    }
}

pub proof fn lemma_first_nl(s: Seq<u8>)
    ensures
        0 <= first_nl(s) <= s.len(),
        first_nl(s) < s.len() ==> s[first_nl(s)] == NL,
        forall|j: int| 0 <= j < first_nl(s) ==> s[j] != NL,
    decreases s.len(),
{
    if s.len() == 0 {
    } else if s[0] == NL {
    } else {
        lemma_first_nl(s.skip(1));
        assert forall|j: int| 0 <= j < first_nl(s) implies s[j] != NL by {
            if j > 0 {
                assert(s.skip(1)[j - 1] == s[j]);
            }
        }
        if first_nl(s) < s.len() {
            assert(s.skip(1)[first_nl(s.skip(1))] == s[first_nl(s)]);
        }
    }
}

pub proof fn lemma_first_nl_append(s: Seq<u8>, t: Seq<u8>)
    ensures
        first_nl(s) < s.len() ==> first_nl(s + t) == first_nl(s),
        first_nl(s) == s.len() ==> first_nl(s + t) == s.len() + first_nl(t),
    decreases s.len(),
{
    lemma_first_nl(s);
    if s.len() == 0 {
        assert(s + t =~= t);
    } else if s[0] == NL {
        assert((s + t)[0] == NL);
    } else {
        lemma_first_nl_append(s.skip(1), t);
        assert((s + t)[0] == s[0]);
        assert((s + t).skip(1) =~= s.skip(1) + t);
    }
}

/// Splitting a concatenation at a point inside its first half reads only that
/// half, and the rest of the concatenation carries the second half whole.
pub proof fn lemma_concat_parts(s: Seq<u8>, t: Seq<u8>, i: int)
    requires
        0 <= i <= s.len(),
    ensures
        (s + t).take(i) == s.take(i),
        i < s.len() ==> (s + t).skip(i + 1) == s.skip(i + 1) + t,
{
    assert((s + t).take(i) =~= s.take(i));
    if i < s.len() {
        assert((s + t).skip(i + 1) =~= s.skip(i + 1) + t);
    }
}

#[verifier::external_type_specification]
#[verifier::external_body]
pub struct ExJsonValue(serde_json::Value);

/// What `serde_json` makes of a complete line when read as one JSON document:
/// `Some(value)` when the bytes parse, `None` otherwise. The outcome depends
/// on the bytes alone.
pub uninterp spec fn json_parse(line: Seq<u8>) -> Option<serde_json::Value>;

/// Relies on `serde_json::from_slice::<Value>`: whether a byte sequence
/// parses as one JSON document, and as which value, is a function of the
/// bytes alone.
#[verifier::external_body]
fn parse_json_line(line: &Vec<u8>) -> (r: Option<serde_json::Value>)
    ensures
        r == json_parse(line@),
{
    serde_json::from_slice(line.as_slice()).ok()
}

/// The records a decode session emits from buffered bytes `s`, driven until
/// no complete line remains: one record per newline-terminated line, in
/// order, stopping (for good) at the first line that fails to parse.
pub open spec fn drain_spec(s: Seq<u8>) -> Seq<serde_json::Value>
    decreases s.len(),
        via drain_spec_dec
{
    if first_nl(s) == s.len() {
        Seq::empty()
    } else {
        match json_parse(s.take(first_nl(s))) {
            Some(v) => seq![v] + drain_spec(s.skip(first_nl(s) + 1)),
            None => Seq::empty(),
        }
    }
}

#[via_fn]
proof fn drain_spec_dec(s: Seq<u8>) {
    lemma_first_nl(s);
}

/// Whether a decode session over `s` runs without a decode error: every
/// complete line of `s` parses as one JSON document.
pub open spec fn drain_ok(s: Seq<u8>) -> bool
    decreases s.len(),
        via drain_ok_dec
{
    if first_nl(s) == s.len() {
        true
    } else {
        match json_parse(s.take(first_nl(s))) {
            Some(v) => drain_ok(s.skip(first_nl(s) + 1)),
            None => false,
        }
    }
}

#[via_fn]
proof fn drain_ok_dec(s: Seq<u8>) {
    lemma_first_nl(s);
}

/// The unconsumed partial line left after every complete line of `s` has been
/// split off: the suffix after the last newline.
pub open spec fn leftover(s: Seq<u8>) -> Seq<u8>
    decreases s.len(),
        via leftover_dec
{
    if first_nl(s) == s.len() {
        s
    } else {
        leftover(s.skip(first_nl(s) + 1))
    }
}

#[via_fn]
proof fn leftover_dec(s: Seq<u8>) {
    lemma_first_nl(s);
}

/// The first complete line of `s` that fails to parse: the line a decode
/// session over `s` dies on. Meaningful only when `!drain_ok(s)`.
pub open spec fn first_bad_line(s: Seq<u8>) -> Seq<u8>
    decreases s.len(),
        via first_bad_line_dec
{
    if first_nl(s) == s.len() {
        Seq::empty()
    } else {
        match json_parse(s.take(first_nl(s))) {
            Some(v) => first_bad_line(s.skip(first_nl(s) + 1)),
            None => s.take(first_nl(s)),
        }
    }
}

#[via_fn]
proof fn first_bad_line_dec(s: Seq<u8>) {
    lemma_first_nl(s);
}

/// What stays buffered once a decode session over `s` has died on its first
/// unparseable line: everything after that line. Meaningful only when
/// `!drain_ok(s)`.
pub open spec fn rest_after_error(s: Seq<u8>) -> Seq<u8>
    decreases s.len(),
        via rest_after_error_dec
{
    if first_nl(s) == s.len() {
        s
    } else {
        match json_parse(s.take(first_nl(s))) {
            Some(v) => rest_after_error(s.skip(first_nl(s) + 1)),
            None => s.skip(first_nl(s) + 1),
        }
    }
}

#[via_fn]
proof fn rest_after_error_dec(s: Seq<u8>) {
    lemma_first_nl(s);
}

/// The leftover of a drained buffer holds no newline.
pub proof fn lemma_leftover_no_nl(s: Seq<u8>)
    ensures
        first_nl(leftover(s)) == leftover(s).len(),
    decreases s.len(),
{
    lemma_first_nl(s);
    if first_nl(s) == s.len() {
    } else {
        lemma_leftover_no_nl(s.skip(first_nl(s) + 1));
    }
}

/// Draining `s + t` splits into draining `s` and then draining what `s` left
/// unconsumed, extended by `t`: the step that makes record decoding
/// insensitive to chunk boundaries.
pub proof fn lemma_drain_append(s: Seq<u8>, t: Seq<u8>)
    ensures
        drain_ok(s) ==> drain_spec(s + t) == drain_spec(s) + drain_spec(leftover(s) + t),
        !drain_ok(s) ==> drain_spec(s + t) == drain_spec(s),
        drain_ok(s + t) == (drain_ok(s) && drain_ok(leftover(s) + t)),
        drain_ok(s) ==> leftover(s + t) == leftover(leftover(s) + t),
    decreases s.len(),
{
    lemma_first_nl(s);
    lemma_first_nl_append(s, t);
    if first_nl(s) == s.len() {
        assert(leftover(s) + t =~= s + t);
        assert(drain_spec(s) + drain_spec(s + t) =~= drain_spec(s + t));
    } else {
        let i = first_nl(s);
        lemma_concat_parts(s, t, i);
        match json_parse(s.take(i)) {
            Some(v) => {
                lemma_drain_append(s.skip(i + 1), t);
                assert(drain_spec(s + t) == seq![v] + drain_spec(s.skip(i + 1) + t));
                assert(drain_spec(s) == seq![v] + drain_spec(s.skip(i + 1)));
                if drain_ok(s) {
                    assert((seq![v] + drain_spec(s.skip(i + 1)))
                        + drain_spec(leftover(s.skip(i + 1)) + t)
                        =~= seq![v] + (drain_spec(s.skip(i + 1))
                            + drain_spec(leftover(s.skip(i + 1)) + t)));
                }
            }
            None => {
                assert(drain_spec(s + t) =~= Seq::<serde_json::Value>::empty());
            }
        }
    }
}

/// The bytes of a whole stream, chunk by chunk, in arrival order.
pub open spec fn concat_chunks(chunks: Seq<Seq<u8>>) -> Seq<u8>
    decreases chunks.len(),
{
    if chunks.len() == 0 {
        Seq::empty()
    } else {
        chunks[0] + concat_chunks(chunks.skip(1))
    }
}

/// The records a decode session emits when the stream arrives as `chunks`,
/// the decoder starting with `buffered` unconsumed bytes: after each chunk
/// every available complete line is decoded, and a decode error ends the
/// session for good.
pub open spec fn session_spec(buffered: Seq<u8>, chunks: Seq<Seq<u8>>) -> Seq<
    serde_json::Value,
>
    decreases chunks.len(),
{
    if chunks.len() == 0 {
        Seq::empty()
    } else {
        let s = buffered + chunks[0];
        if drain_ok(s) {
            drain_spec(s) + session_spec(leftover(s), chunks.skip(1))
        } else {
            drain_spec(s)
        }
    }
}

/// A decode session over any chunking emits exactly the records of draining
/// the whole byte stream at once.
pub proof fn lemma_session_drains_concat(buffered: Seq<u8>, chunks: Seq<Seq<u8>>)
    requires
        first_nl(buffered) == buffered.len(),
    ensures
        session_spec(buffered, chunks) == drain_spec(buffered + concat_chunks(chunks)),
    decreases chunks.len(),
{
    if chunks.len() == 0 {
        assert(buffered + concat_chunks(chunks) =~= buffered);
    } else {
        let s = buffered + chunks[0];
        let rest = concat_chunks(chunks.skip(1));
        lemma_leftover_no_nl(s);
        lemma_session_drains_concat(leftover(s), chunks.skip(1));
        lemma_drain_append(s, rest);
        assert(buffered + concat_chunks(chunks) =~= s + rest);
    }
}

/// Chunk-boundary invariance: two arrivals of one and the same byte stream,
/// split at arbitrary chunk boundaries, make a decode session emit one and
/// the same ordered sequence of records.
pub proof fn lemma_chunk_boundary_invariance(chunks1: Seq<Seq<u8>>, chunks2: Seq<Seq<u8>>)
    requires
        concat_chunks(chunks1) == concat_chunks(chunks2),
    ensures
        session_spec(Seq::empty(), chunks1) == session_spec(Seq::empty(), chunks2),
{
    lemma_session_drains_concat(Seq::empty(), chunks1);
    lemma_session_drains_concat(Seq::empty(), chunks2);
    assert(Seq::<u8>::empty() + concat_chunks(chunks1) =~= concat_chunks(chunks1));
    assert(Seq::<u8>::empty() + concat_chunks(chunks2) =~= concat_chunks(chunks2));
}

/// A trailing newline-unterminated partial record is discarded: it adds no
/// record and raises no error.
pub proof fn lemma_unterminated_tail_discarded(s: Seq<u8>, tail: Seq<u8>)
    requires
        drain_ok(s),
        first_nl(tail) == tail.len(),
    ensures
        drain_spec(s + tail) == drain_spec(s),
        drain_ok(s + tail),
{
    lemma_drain_append(s, tail);
    lemma_leftover_no_nl(s);
    lemma_first_nl_append(leftover(s), tail);
    assert(drain_spec(leftover(s) + tail) =~= Seq::<serde_json::Value>::empty());
    assert(drain_spec(s) + Seq::<serde_json::Value>::empty() =~= drain_spec(s));
}

fn find_newline(buf: &Vec<u8>) -> (r: Option<usize>)
    ensures
        match r {
            Some(i) => i == first_nl(buf@) && i < buf@.len() && i < usize::MAX,
            None => first_nl(buf@) == buf@.len(),
        },
{
    proof {
        lemma_first_nl(buf@);
    }
    let mut i: usize = 0;
    while i < buf.len()
        invariant
            i <= buf@.len(),
            forall|j: int| 0 <= j < i ==> buf@[j] != NL,
            0 <= first_nl(buf@) <= buf@.len(),
            first_nl(buf@) < buf@.len() ==> buf@[first_nl(buf@)] == NL,
            forall|j: int| 0 <= j < first_nl(buf@) ==> buf@[j] != NL,
        decreases buf@.len() - i,
    {
        if buf[i] == NL {
            return Some(i);
        }
        i += 1;
    }
    None
}

fn take_prefix(buf: &Vec<u8>, n: usize) -> (r: Vec<u8>)
    requires
        n <= buf@.len(),
    ensures
        r@ == buf@.take(n as int),
{
    let mut r: Vec<u8> = Vec::new();
    let mut j: usize = 0;
    while j < n
        invariant
            j <= n <= buf@.len(),
            r@.len() == j,
            forall|k: int| 0 <= k < j ==> r@[k] == buf@[k],
        decreases n - j,
    {
        r.push(buf[j]);
        j += 1;
    }
    proof {
        assert(r@ =~= buf@.take(n as int));
    }
    r
}

fn drop_prefix(buf: &Vec<u8>, n: usize) -> (r: Vec<u8>)
    requires
        n <= buf@.len(),
    ensures
        r@ == buf@.skip(n as int),
{
    let mut r: Vec<u8> = Vec::new();
    let mut j: usize = n;
    while j < buf.len()
        invariant
            n <= j <= buf@.len(),
            r@.len() == j - n,
            forall|k: int| 0 <= k < r@.len() ==> r@[k] == buf@[k + n],
        decreases buf@.len() - j,
    {
        r.push(buf[j]);
        j += 1;
    }
    proof {
        assert(r@ =~= buf@.skip(n as int));
    }
    r
}

/// A decoder for a response body where each newline-terminated line is one
/// full JSON document. Chunks of any size are fed in as they arrive; a
/// record is emitted only once its whole line has been received.
pub struct JsonLineDecoder {
    buf: Vec<u8>,
}

impl View for JsonLineDecoder {
    type V = Seq<u8>;

    /// The bytes received but not yet consumed, in arrival order.
    closed spec fn view(&self) -> Seq<u8> {
        self.buf@
    }
}

impl JsonLineDecoder {
    pub fn new() -> (r: JsonLineDecoder)
        ensures
            r@ == Seq::<u8>::empty(),
    {
        JsonLineDecoder { buf: Vec::new() }
    }

    /// Append one arrived chunk to the unconsumed bytes.
    pub fn feed(&mut self, chunk: &Vec<u8>)
        ensures
            final(self)@ == old(self)@ + chunk@,
    {
        self.buf.extend_from_slice(chunk.as_slice());
    }

    /// Try to split off the first complete line and parse it as one JSON
    /// record. Without a complete line, nothing is consumed and no record is
    /// emitted; a complete line that fails to parse is a decode error,
    /// terminal for the session.
    pub fn next_record(&mut self) -> (r: Result<Option<serde_json::Value>, Error>)
        ensures
            ({
                let b = old(self)@;
                let i = first_nl(b);
                if i == b.len() {
                    final(self)@ == b && r == Ok::<Option<serde_json::Value>, Error>(None)
                } else {
                    final(self)@ == b.skip(i + 1) && match json_parse(b.take(i)) {
                        Some(v) => r == Ok::<Option<serde_json::Value>, Error>(Some(v)),
                        None => r matches Err(Error::Decode { line }) && line@ == b.take(i),
                    }
                }
            }),
    {
        match find_newline(&self.buf) {
            None => Ok(None),
            Some(i) => {
                let line = take_prefix(&self.buf, i);
                let rest = drop_prefix(&self.buf, i + 1);
                self.buf = rest;
                match parse_json_line(&line) {
                    Some(v) => Ok(Some(v)),
                    None => Err(Error::Decode { line }),
                }
            }
        }
    }

    /// Decode every record currently available: split lines off and parse
    /// them until no complete line remains or a line fails to parse. Returns
    /// the records in order, or the decode error; afterwards at most one
    /// partial line is retained.
    pub fn drain(&mut self) -> (r: Result<Vec<serde_json::Value>, Error>)
        ensures
            match r {
                Ok(records) => drain_ok(old(self)@) && records@ == drain_spec(old(self)@)
                    && final(self)@ == leftover(old(self)@)
                    && first_nl(final(self)@) == final(self)@.len(),
                Err(e) => !drain_ok(old(self)@)
                    && (e matches Error::Decode { line } && line@ == first_bad_line(old(self)@))
                    && final(self)@ == rest_after_error(old(self)@),
            },
    {
        let mut records: Vec<serde_json::Value> = Vec::new();
        loop
            invariant
                drain_ok(old(self)@) == drain_ok(self@),
                drain_spec(old(self)@) == records@ + drain_spec(self@),
                drain_ok(self@) ==> leftover(old(self)@) == leftover(self@),
                first_bad_line(old(self)@) == first_bad_line(self@),
                rest_after_error(old(self)@) == rest_after_error(self@),
            decreases self@.len(),
        {
            proof {
                lemma_first_nl(self@);
            }
            let ghost b = self@;
            match self.next_record() {
                Ok(Some(v)) => {
                    records.push(v);
                    proof {
                        let i = first_nl(b);
                        assert(drain_spec(b) == seq![json_parse(b.take(i)).unwrap()] + drain_spec(
                            b.skip(i + 1),
                        ));
                        assert(records@ + drain_spec(self@) =~= records@.drop_last() + (seq![v]
                            + drain_spec(self@)));
                    }
                }
                Ok(None) => {
                    proof {
                        assert(drain_spec(self@) =~= Seq::<serde_json::Value>::empty());
                        assert(records@ + Seq::<serde_json::Value>::empty() =~= records@);
                    }
                    return Ok(records);
                }
                Err(e) => {
                    return Err(e);
                }
            }
        }
    }

    /// End of input: a non-empty unterminated buffer is no further record and
    /// no error; the dangling partial line is discarded with the decoder.
    pub fn end(self) -> (r: Option<Error>)
        ensures
            r is None,
    {
        None
    }
}

/// The bytes a run of reads brought in from the source, in order: each poll
/// that yielded a chunk contributes that chunk, a read served from the
/// buffer contributes nothing.
pub open spec fn concat_polled(polled: Seq<Option<Seq<u8>>>) -> Seq<u8>
    decreases polled.len(),
{
    if polled.len() == 0 {
        Seq::empty()
    } else {
        (match polled[0] {
            Some(c) => c,
            None => Seq::empty(),
        }) + concat_polled(polled.skip(1))
    }
}

/// Across any run of reads, whatever the chunk and buffer sizes, no byte is
/// lost, duplicated or reordered: the pending bytes at the start plus every
/// chunk the source yielded equal the bytes delivered to the caller, in
/// order, plus the bytes still pending. Step `i` is one read: served from
/// the buffer (`polled[i]` is `None`) or from a freshly polled chunk
/// (`polled[i]` is `Some`), each pinned exactly as the contracts of
/// `read_buffered` and `poll_read` state it.
pub proof fn lemma_read_run_conservation(
    pendings: Seq<Seq<u8>>,
    polled: Seq<Option<Seq<u8>>>,
    delivered: Seq<Seq<u8>>,
)
    requires
        pendings.len() == delivered.len() + 1,
        polled.len() == delivered.len(),
        forall|i: int|
            0 <= i < delivered.len() ==> match #[trigger] polled[i] {
                None => delivered[i].len() <= pendings[i].len()
                    && delivered[i] == pendings[i].take(delivered[i].len() as int)
                    && pendings[i + 1] == pendings[i].skip(delivered[i].len() as int),
                Some(c) => pendings[i] == Seq::<u8>::empty()
                    && delivered[i].len() <= c.len()
                    && delivered[i] == c.take(delivered[i].len() as int)
                    && pendings[i + 1] == c.skip(delivered[i].len() as int),
            },
    ensures
        pendings[0] + concat_polled(polled) == concat_chunks(delivered) + pendings[delivered.len() as int],
    decreases delivered.len(),
{
    if delivered.len() == 0 {
        assert(pendings[0] + concat_polled(polled) =~= concat_chunks(delivered) + pendings[0]);
    } else {
        assert forall|i: int|
            0 <= i < delivered.skip(1).len() implies match #[trigger] polled.skip(1)[i] {
                None => delivered.skip(1)[i].len() <= pendings.skip(1)[i].len()
                    && delivered.skip(1)[i] == pendings.skip(1)[i].take(
                    delivered.skip(1)[i].len() as int,
                ) && pendings.skip(1)[i + 1] == pendings.skip(1)[i].skip(
                    delivered.skip(1)[i].len() as int,
                ),
                Some(c) => pendings.skip(1)[i] == Seq::<u8>::empty()
                    && delivered.skip(1)[i].len() <= c.len() && delivered.skip(1)[i]
                    == c.take(delivered.skip(1)[i].len() as int) && pendings.skip(1)[i + 1]
                    == c.skip(delivered.skip(1)[i].len() as int),
            } by {
            let j = i + 1;
            assert(match polled[j] {
                None => delivered[j].len() <= pendings[j].len() && delivered[j]
                    == pendings[j].take(delivered[j].len() as int) && pendings[j + 1]
                    == pendings[j].skip(delivered[j].len() as int),
                Some(c) => pendings[j] == Seq::<u8>::empty() && delivered[j].len() <= c.len()
                    && delivered[j] == c.take(delivered[j].len() as int) && pendings[j + 1]
                    == c.skip(delivered[j].len() as int),
            });
        }
        lemma_read_run_conservation(pendings.skip(1), polled.skip(1), delivered.skip(1));
        let last = pendings[delivered.len() as int];
        assert(match polled[0] {
            None => delivered[0].len() <= pendings[0].len() && delivered[0] == pendings[0].take(
                delivered[0].len() as int,
            ) && pendings[1] == pendings[0].skip(delivered[0].len() as int),
            Some(c) => pendings[0] == Seq::<u8>::empty() && delivered[0].len() <= c.len()
                && delivered[0] == c.take(delivered[0].len() as int) && pendings[1] == c.skip(
                delivered[0].len() as int,
            ),
        });
        assert(pendings.skip(1)[delivered.skip(1).len() as int] == last);
        let d0 = delivered[0];
        match polled[0] {
            None => {
                assert(pendings[0] =~= d0 + pendings[1]);
                assert(concat_polled(polled) == Seq::<u8>::empty() + concat_polled(
                    polled.skip(1),
                ));
                assert(pendings[0] + concat_polled(polled) =~= d0 + (pendings[1] + concat_polled(
                    polled.skip(1),
                )));
            }
            Some(c) => {
                assert(c =~= d0 + pendings[1]);
                assert(concat_polled(polled) == c + concat_polled(polled.skip(1)));
                assert(pendings[0] + concat_polled(polled) =~= d0 + (pendings[1] + concat_polled(
                    polled.skip(1),
                )));
            }
        }
        assert(pendings.skip(1)[0] == pendings[1]);
        assert(d0 + (concat_chunks(delivered.skip(1)) + last) =~= concat_chunks(delivered)
            + last);
    }
}

/// One outcome of polling the asynchronous chunk source once. The poll
/// itself is transport work and happens outside; its outcome is handed in as
/// a plain value.
pub enum SourcePoll {
    /// The source yielded a chunk.
    Chunk(Vec<u8>),
    /// The source ended normally.
    End,
    /// The source has nothing yet; a read must not block on it.
    Pending,
    /// The source failed.
    Failed(Error),
}

/// One outcome of a read against the stream reader.
#[derive(Debug)]
pub enum ReadOutcome {
    /// This many bytes were copied into the front of the caller's buffer.
    Read(usize),
    /// End of the stream: no byte was copied and none will follow.
    Eof,
    /// No chunk is available yet; the caller chooses whether to retry.
    WouldBlock,
    /// The source failed; the failure is passed through.
    Failed(Error),
}

/// The buffering state of a stream reader: either no chunk is pending, or
/// one chunk is held with a read offset into it.
enum ReadState {
    /// A chunk is held; bytes before `pos` have already been handed out.
    Ready { chunk: Vec<u8>, pos: usize },
    /// No chunk is held; the next read must poll the source.
    NotReady,
}

/// Bridges an asynchronous chunk-producing source into pull-based byte
/// reads: at most one chunk is buffered, reads copy from it without crossing
/// its boundary, and when it is exhausted the source is polled exactly once
/// per read. Never blocks: an unavailable chunk is reported, not awaited.
pub struct StreamReader {
    state: ReadState,
}

impl StreamReader {
    /// The read offset never exceeds the buffered chunk's length.
    pub closed spec fn wf(&self) -> bool {
        match self.state {
            ReadState::Ready { chunk, pos } => pos <= chunk@.len(),
            ReadState::NotReady => true,
        }
    }

    /// Whether a chunk is currently buffered.
    pub closed spec fn is_buffered(&self) -> bool {
        self.state is Ready
    }

    /// The bytes already received from the source but not yet handed out.
    pub closed spec fn pending(&self) -> Seq<u8> {
        match self.state {
            ReadState::Ready { chunk, pos } => chunk@.skip(pos as int),
            ReadState::NotReady => Seq::empty(),
        }
    }

    pub fn new() -> (r: StreamReader)
        ensures
            r.wf(),
            !r.is_buffered(),
            r.pending() == Seq::<u8>::empty(),
    {
        StreamReader { state: ReadState::NotReady }
    }

    /// Whether the next read can be served from the buffered chunk, without
    /// polling the source.
    pub fn has_buffered(&self) -> (r: bool)
        ensures
            r == self.is_buffered(),
    {
        match self.state {
            ReadState::Ready { .. } => true,
            ReadState::NotReady => false,
        }
    }

    /// Copy from the buffered chunk into the front of `buf`: as many bytes
    /// as fit, never past the chunk's end. Bytes are handed out exactly
    /// once, in order; a fully consumed chunk is dropped.
    pub fn read_buffered(&mut self, buf: &mut Vec<u8>) -> (n: usize)
        requires
            old(self).wf(),
            old(self).is_buffered(),
        ensures
            final(self).wf(),
            final(buf)@.len() == old(buf)@.len(),
            n == if old(buf)@.len() <= old(self).pending().len() {
                old(buf)@.len()
            } else {
                old(self).pending().len()
            },
            final(buf)@ == old(self).pending().take(n as int) + old(buf)@.skip(n as int),
            final(self).pending() == old(self).pending().skip(n as int),
            old(self).pending().take(n as int) + final(self).pending() == old(self).pending(),
            final(self).is_buffered() <==> n < old(self).pending().len(),
    {
        let mut state = ReadState::NotReady;
        core::mem::swap(&mut state, &mut self.state);
        match state {
            ReadState::Ready { chunk, pos } => {
                let clen = chunk.len();
                let remaining = clen - pos;
                let n = if buf.len() <= remaining {
                    buf.len()
                } else {
                    remaining
                };
                let mut j: usize = 0;
                while j < n
                    invariant
                        j <= n,
                        n <= buf@.len(),
                        clen == chunk@.len(),
                        pos + n <= clen,
                        buf@.len() == old(buf)@.len(),
                        forall|k: int| 0 <= k < j ==> buf@[k] == chunk@[pos + k],
                        forall|k: int| j <= k < buf@.len() ==> buf@[k] == old(buf)@[k],
                    decreases n - j,
                {
                    let b = chunk[pos + j];
                    buf[j] = b;
                    j += 1;
                }
                let newpos = pos + n;
                if newpos < chunk.len() {
                    self.state = ReadState::Ready { chunk, pos: newpos };
                }
                proof {
                    let p = old(self).pending();
                    assert(buf@ =~= p.take(n as int) + old(buf)@.skip(n as int));
                    assert(self.pending() =~= p.skip(n as int));
                    assert(p.take(n as int) + p.skip(n as int) =~= p);
                }
                n
            }
            ReadState::NotReady => unreached(),
        }
    }

    /// Serve a read when no chunk is buffered, from the outcome of one poll
    /// of the source: a new chunk is buffered and read from at once; end of
    /// source, an unavailable chunk and a source failure are each reported
    /// without blocking and without consuming a byte.
    pub fn poll_read(&mut self, buf: &mut Vec<u8>, poll: SourcePoll) -> (r: ReadOutcome)
        requires
            old(self).wf(),
            !old(self).is_buffered(),
        ensures
            final(self).wf(),
            final(buf)@.len() == old(buf)@.len(),
            match poll {
                SourcePoll::Chunk(c) => {
                    let n = if old(buf)@.len() <= c@.len() {
                        old(buf)@.len()
                    } else {
                        c@.len()
                    };
                    r == ReadOutcome::Read(n as usize)
                        && final(buf)@ == c@.take(n as int) + old(buf)@.skip(n as int)
                        && final(self).pending() == c@.skip(n as int)
                        && (final(self).is_buffered() <==> n < c@.len())
                },
                SourcePoll::End => r == ReadOutcome::Eof && final(buf)@ == old(buf)@
                    && !final(self).is_buffered() && final(self).pending() == Seq::<u8>::empty(),
                SourcePoll::Pending => r == ReadOutcome::WouldBlock && final(buf)@ == old(buf)@
                    && !final(self).is_buffered() && final(self).pending() == Seq::<u8>::empty(),
                SourcePoll::Failed(e) => r == ReadOutcome::Failed(e) && final(buf)@ == old(buf)@
                    && !final(self).is_buffered() && final(self).pending() == Seq::<u8>::empty(),
            },
    {
        match poll {
            SourcePoll::Chunk(c) => {
                let ghost cs = c@;
                self.state = ReadState::Ready { chunk: c, pos: 0 };
                proof {
                    assert(self.pending() =~= cs);
                }
                let n = self.read_buffered(buf);
                ReadOutcome::Read(n)
            }
            SourcePoll::End => ReadOutcome::Eof,
            SourcePoll::Pending => ReadOutcome::WouldBlock,
            SourcePoll::Failed(e) => ReadOutcome::Failed(e),
        }
    }
}

} // verus!
