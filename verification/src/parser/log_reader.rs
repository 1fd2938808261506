//! Reading a decoded log stream chunk by chunk into lines for the parser.
//!
//! The caller hands over what its buffered reader has available; the reader
//! takes a bounded piece of it up to the next newline, checks the line and
//! stream limits before the line grows, and parses each completed line. A
//! final line without a newline is parsed when the stream ends.

use vstd::prelude::*;

use crate::parser::log_parser::{
    anchor_spec, check_line_growth, evidence_views, feed_spec, line_growth_spec, parsed_log_sound,
    EvidenceView, LogParseLimitExceeded, LogParser, TimestampState,
};
use crate::parser::session_reconstruction::log_accepted;
use crate::parser::minecraft_log::{
    DateHintBasis, LogParseContext, LogParseDiagnostics, LogParseLimits, ParsedLog,
};

verus! {

/// The most bytes looked at in one step, so that a caller can check for
/// cancellation at least this often.
pub const CANCELLATION_CHECK_BYTES: usize = 65_536;

/// How many bytes of `available` one step takes: up to and including the
/// first newline among the first `CANCELLATION_CHECK_BYTES` bytes, else all
/// of those bytes.
pub open spec fn step_len(available: Seq<u8>) -> int {
    let window = if available.len() < CANCELLATION_CHECK_BYTES {
        available.len() as int
    } else {
        CANCELLATION_CHECK_BYTES as int
    };
    if exists|i: int| 0 <= i < window && available[i] == 10u8 {
        (choose|i: int| 0 <= i < window && available[i] == 10u8 && forall|j: int|
            0 <= j < i ==> available[j] != 10u8) + 1
    } else {
        window
    }
}

/// `p` is the log that a parser in the given state finishes with.
pub open spec fn finished(
    p: ParsedLog,
    context: LogParseContext,
    evidence: Seq<EvidenceView>,
    d: LogParseDiagnostics,
    st: TimestampState,
    offset: u64,
) -> bool {
    &&& p.context == context
    &&& evidence_views(p.evidence@) == anchor_spec(evidence, context, st)
    &&& p.diagnostics == (LogParseDiagnostics { decoded_bytes: offset, ..d })
}

/// A reader's state as values: the evidence, diagnostics, clock and offset of
/// the lines completed so far, and the bytes of the line begun.
pub struct StreamState {
    pub evidence: Seq<EvidenceView>,
    pub diagnostics: LogParseDiagnostics,
    pub clock: TimestampState,
    pub offset: u64,
    pub pending: Seq<u8>,
}

/// One decoded byte added to the stream: the line grows by it, within the
/// line and stream limits, and a newline completes and parses the line.
pub open spec fn feed_byte(
    context: LogParseContext,
    limits: LogParseLimits,
    s: StreamState,
    b: u8,
) -> Result<StreamState, LogParseLimitExceeded> {
    match line_growth_spec(s.pending.len() as int, 1, s.offset as int, limits) {
        Some(e) => Err(e),
        None => {
            let line = s.pending.push(b);
            if b == 10u8 {
                match feed_spec(context, limits, s.evidence, s.diagnostics, s.clock, s.offset, line) {
                    Ok((ev, d, st, off)) => Ok(
                        StreamState {
                            evidence: ev,
                            diagnostics: d,
                            clock: st,
                            offset: off,
                            pending: Seq::<u8>::empty(),
                        },
                    ),
                    Err(e) => Err(e),
                }
            } else {
                Ok(StreamState { pending: line, ..s })
            }
        },
    }
}

/// Decoded bytes added to the stream one after another.
pub open spec fn feed_bytes(
    context: LogParseContext,
    limits: LogParseLimits,
    s: StreamState,
    bytes: Seq<u8>,
) -> Result<StreamState, LogParseLimitExceeded>
    decreases bytes.len(),
{
    if bytes.len() == 0 {
        Ok(s)
    } else {
        match feed_bytes(context, limits, s, bytes.drop_last()) {
            Ok(t) => feed_byte(context, limits, t, bytes.last()),
            Err(e) => Err(e),
        }
    }
}

/// Chunks of a stream fed one after another.
pub open spec fn feed_chunks(
    context: LogParseContext,
    limits: LogParseLimits,
    s: StreamState,
    chunks: Seq<Seq<u8>>,
) -> Result<StreamState, LogParseLimitExceeded>
    decreases chunks.len(),
{
    if chunks.len() == 0 {
        Ok(s)
    } else {
        match feed_chunks(context, limits, s, chunks.drop_last()) {
            Ok(t) => feed_bytes(context, limits, t, chunks.last()),
            Err(e) => Err(e),
        }
    }
}

/// Feeding `a` and then `b` is feeding `a + b`: a stream read in two pieces
/// leaves the reader as the stream read at once does.
pub proof fn lemma_feed_bytes_split(
    context: LogParseContext,
    limits: LogParseLimits,
    s: StreamState,
    a: Seq<u8>,
    b: Seq<u8>,
)
    ensures
        feed_bytes(context, limits, s, a + b) == match feed_bytes(context, limits, s, a) {
            Ok(t) => feed_bytes(context, limits, t, b),
            Err(e) => Err(e),
        },
    decreases b.len(),
{
    if b.len() == 0 {
        assert(a + b =~= a);
    } else {
        assert((a + b).drop_last() =~= a + b.drop_last());
        assert((a + b).last() == b.last());
        lemma_feed_bytes_split(context, limits, s, a, b.drop_last());
    }
}

/// However a stream is cut into chunks, feeding the chunks one after another
/// is feeding the whole stream: the result does not depend on where the
/// reader's buffer ended.
pub proof fn lemma_chunking_irrelevant(
    context: LogParseContext,
    limits: LogParseLimits,
    s: StreamState,
    chunks: Seq<Seq<u8>>,
)
    ensures
        feed_chunks(context, limits, s, chunks) == feed_bytes(context, limits, s, chunks.flatten()),
    decreases chunks.len(),
{
    if chunks.len() > 0 {
        lemma_chunking_irrelevant(context, limits, s, chunks.drop_last());
        chunks.drop_last().lemma_flatten_push(chunks.last());
        assert(chunks.drop_last().push(chunks.last()) =~= chunks);
        lemma_feed_bytes_split(context, limits, s, chunks.drop_last().flatten(), chunks.last());
    }
}

/// Bytes without a newline only lengthen the line begun, if the limits allow
/// the longer line.
proof fn lemma_feed_without_newline(
    context: LogParseContext,
    limits: LogParseLimits,
    s: StreamState,
    c: Seq<u8>,
)
    requires
        forall|i: int| 0 <= i < c.len() ==> c[i] != 10u8,
    ensures
        c.len() > 0 ==> (feed_bytes(context, limits, s, c) is Ok <==> line_growth_spec(
            s.pending.len() as int,
            c.len() as int,
            s.offset as int,
            limits,
        ) is None),
        feed_bytes(context, limits, s, c) is Ok ==> feed_bytes(context, limits, s, c) == Ok::<
            StreamState,
            LogParseLimitExceeded,
        >(StreamState { pending: s.pending + c, ..s }),
    decreases c.len(),
{
    if c.len() == 0 {
        assert(s.pending + c =~= s.pending);
    } else {
        lemma_feed_without_newline(context, limits, s, c.drop_last());
        assert(s.pending + c.drop_last() + seq![c.last()] =~= s.pending + c);
        assert((s.pending + c.drop_last()).push(c.last()) =~= s.pending + c);
    }
}

/// A piece of a stream with no newline but perhaps its last byte is taken as
/// one step: one check of the grown line against the limits, then, for a
/// newline, the parse of the completed line.
#[verifier::rlimit(40)]
proof fn lemma_feed_step(
    context: LogParseContext,
    limits: LogParseLimits,
    s: StreamState,
    c: Seq<u8>,
)
    requires
        c.len() > 0,
        forall|i: int| 0 <= i < c.len() - 1 ==> c[i] != 10u8,
    ensures
        line_growth_spec(s.pending.len() as int, c.len() as int, s.offset as int, limits) is Some
            ==> feed_bytes(context, limits, s, c) is Err,
        line_growth_spec(s.pending.len() as int, c.len() as int, s.offset as int, limits) is None
            && c.last() != 10u8 ==> feed_bytes(context, limits, s, c) == Ok::<
            StreamState,
            LogParseLimitExceeded,
        >(StreamState { pending: s.pending + c, ..s }),
        line_growth_spec(s.pending.len() as int, c.len() as int, s.offset as int, limits) is None
            && c.last() == 10u8 ==> feed_bytes(context, limits, s, c) == match feed_spec(
            context,
            limits,
            s.evidence,
            s.diagnostics,
            s.clock,
            s.offset,
            s.pending + c,
        ) {
            Ok((ev, d, st, off)) => Ok::<StreamState, LogParseLimitExceeded>(
                StreamState {
                    evidence: ev,
                    diagnostics: d,
                    clock: st,
                    offset: off,
                    pending: Seq::<u8>::empty(),
                },
            ),
            Err(e) => Err::<StreamState, LogParseLimitExceeded>(e),
        },
{
    let head = c.drop_last();
    assert forall|i: int| 0 <= i < head.len() implies head[i] != 10u8 by {
        assert(head[i] == c[i]);
    }
    lemma_feed_without_newline(context, limits, s, head);
    assert((s.pending + head).push(c.last()) =~= s.pending + c);
}

/// The length of one step over `available`, and whether it ends at a newline.
fn step(available: &[u8]) -> (r: (usize, bool))
    requires
        available@.len() > 0,
    ensures
        r.0 == step_len(available@),
        0 < r.0 <= available@.len(),
        r.1 == (available@.take(r.0 as int).last() == 10u8),
        forall|j: int| 0 <= j < r.0 - 1 ==> available@[j] != 10u8,
{
    let window: usize = if available.len() < CANCELLATION_CHECK_BYTES {
        available.len()
    } else {
        CANCELLATION_CHECK_BYTES
    };
    let mut n: usize = 0;
    while n < window && available[n] != 10u8
        invariant
            n <= window <= available@.len(),
            forall|j: int| 0 <= j < n ==> available@[j] != 10u8,
        decreases window - n,
    {
        n = n + 1;
    }
    let has_newline = n < window;
    let take: usize = if has_newline { n + 1 } else { window };
    proof {
        if has_newline {
            assert(available@[n as int] == 10u8);
            let k = choose|i: int| 0 <= i < window && available@[i] == 10u8 && forall|j: int|
                0 <= j < i ==> available@[j] != 10u8;
            if k < n {
                assert(available@[k] != 10u8);
            } else if k > n {
                assert(available@[n as int] != 10u8);
            }
            assert(step_len(available@) == n + 1);
            assert(available@.take(take as int).last() == available@[n as int]);
        } else {
            assert(step_len(available@) == window);
            assert(available@.take(take as int).last() == available@[window - 1]);
        }
    }
    (take, has_newline)
}

/// Appends the first `n` bytes of `src`.
fn append_bytes(v: &mut Vec<u8>, src: &[u8], n: usize)
    requires
        n <= src@.len(),
    ensures
        final(v)@ == old(v)@ + src@.take(n as int),
{
    let mut i: usize = 0;
    while i < n
        invariant
            i <= n <= src@.len(),
            v@ == old(v)@ + src@.take(i as int),
        decreases n - i,
    {
        v.push(src[i]);
        assert(src@.take(i + 1) =~= src@.take(i as int).push(src@[i as int]));
        i = i + 1;
    }
}

pub struct LogReader {
    parser: LogParser,
    line: Vec<u8>,
    consumed: Ghost<Seq<u8>>,
}

/// The state of a reader that has taken nothing.
pub open spec fn initial_stream(context: LogParseContext) -> StreamState {
    StreamState {
        evidence: Seq::empty(),
        diagnostics: LogParseDiagnostics::zero(),
        clock: TimestampState {
            current_date: match context.date_hint_basis {
                DateHintBasis::FirstObservedDay => context.date_hint,
                DateHintBasis::FinalObservedDay => None,
            },
            last_time: None,
            day_index: 0,
        },
        offset: 0,
        pending: Seq::empty(),
    }
}

/// What finishing a reader in state `s` gives: the parsed log's evidence and
/// diagnostics, after a last line without a newline is parsed.
pub open spec fn finish_result(
    context: LogParseContext,
    limits: LogParseLimits,
    s: StreamState,
) -> Result<(Seq<EvidenceView>, LogParseDiagnostics), LogParseLimitExceeded> {
    if s.pending.len() == 0 {
        Ok((anchor_spec(s.evidence, context, s.clock), LogParseDiagnostics { decoded_bytes: s.offset, ..s.diagnostics }))
    } else {
        match feed_spec(context, limits, s.evidence, s.diagnostics, s.clock, s.offset, s.pending) {
            Ok((ev, d, st, off)) => Ok(
                (anchor_spec(ev, context, st), LogParseDiagnostics { decoded_bytes: off, ..d }),
            ),
            Err(e) => Err(e),
        }
    }
}

impl LogReader {
    /// The parser as it stands after the lines completed so far.
    pub closed spec fn parser_view(&self) -> LogParser {
        self.parser
    }

    /// The bytes of the line begun but not yet completed.
    pub closed spec fn pending_view(&self) -> Seq<u8> {
        self.line@
    }

    /// The reader's state as values.
    pub open spec fn stream_view(&self) -> StreamState {
        StreamState {
            evidence: self.parser_view().evidence_view(),
            diagnostics: self.parser_view().diagnostics_view(),
            clock: self.parser_view().state_view(),
            offset: self.parser_view().offset_view(),
            pending: self.pending_view(),
        }
    }

    /// Every byte the reader has taken, in order.
    pub closed spec fn consumed(&self) -> Seq<u8> {
        self.consumed@
    }

    pub closed spec fn wf(&self) -> bool {
        &&& feed_bytes(
            self.parser.context_view(),
            self.parser.limits_view(),
            initial_stream(self.parser.context_view()),
            self.consumed@,
        ) == Ok::<StreamState, LogParseLimitExceeded>(self.stream_view())
        &&& self.parser.wf()
        &&& self.line@.len() <= self.parser.limits_view().max_line_bytes
        &&& self.parser.offset_view() + self.line@.len() <= self.parser.limits_view().max_decompressed_bytes
    }

    pub fn new(context: LogParseContext, limits: LogParseLimits) -> (r: LogReader)
        requires
            crate::parser::log_parser::context_wf(context),
            limits.max_lines <= crate::parser::log_parser::MAX_SUPPORTED_LINES,
        ensures
            r.wf(),
            r.pending_view().len() == 0,
            r.parser_view().context_view() == context,
            r.parser_view().limits_view() == limits,
            r.parser_view().evidence_view().len() == 0,
            r.parser_view().diagnostics_view() == LogParseDiagnostics::zero(),
            r.parser_view().state_view() == (TimestampState {
                current_date: match context.date_hint_basis {
                    DateHintBasis::FirstObservedDay => context.date_hint,
                    DateHintBasis::FinalObservedDay => None,
                },
                last_time: None,
                day_index: 0,
            }),
            r.parser_view().offset_view() == 0,
            r.consumed() == Seq::<u8>::empty(),
    {
        let r = LogReader { parser: LogParser::new(context, limits), line: Vec::new(), consumed: Ghost(Seq::empty()) };
        assert(r.stream_view() =~= initial_stream(context));
        r
    }

    /// Takes one step of `available`, which must not be empty, and returns
    /// how many bytes it took. The line and stream limits are checked before
    /// the line grows; a completed line is parsed.
    pub fn push(&mut self, available: &[u8]) -> (r: Result<usize, LogParseLimitExceeded>)
        requires
            old(self).wf(),
            available@.len() > 0,
        ensures
            final(self).wf(),
            match line_growth_spec(
                old(self).pending_view().len() as int,
                step_len(available@),
                old(self).parser_view().offset_view() as int,
                old(self).parser_view().limits_view(),
            ) {
                Some(e) => r == Err::<usize, LogParseLimitExceeded>(e),
                None => {
                    let taken = available@.take(step_len(available@));
                    let line = old(self).pending_view() + taken;
                    if taken.last() == 10u8 {
                        match feed_spec(
                            old(self).parser_view().context_view(),
                            old(self).parser_view().limits_view(),
                            old(self).parser_view().evidence_view(),
                            old(self).parser_view().diagnostics_view(),
                            old(self).parser_view().state_view(),
                            old(self).parser_view().offset_view(),
                            line,
                        ) {
                            Ok((ev, d, st, off)) => {
                                &&& r == Ok::<usize, LogParseLimitExceeded>(step_len(available@) as usize)
                                &&& final(self).pending_view().len() == 0
                                &&& final(self).parser_view().evidence_view() == ev
                                &&& final(self).parser_view().diagnostics_view() == d
                                &&& final(self).parser_view().state_view() == st
                                &&& final(self).parser_view().offset_view() == off
                                &&& final(self).parser_view().context_view() == old(self).parser_view().context_view()
                                &&& final(self).parser_view().limits_view() == old(self).parser_view().limits_view()
                            },
                            Err(e) => r == Err::<usize, LogParseLimitExceeded>(e),
                        }
                    } else {
                        &&& r == Ok::<usize, LogParseLimitExceeded>(step_len(available@) as usize)
                        &&& final(self).pending_view() == line
                        &&& final(self).parser_view() == old(self).parser_view()
                    }
                },
            },
            match feed_bytes(
                old(self).parser_view().context_view(),
                old(self).parser_view().limits_view(),
                old(self).stream_view(),
                available@.take(step_len(available@)),
            ) {
                Ok(t) => {
                    &&& r == Ok::<usize, LogParseLimitExceeded>(step_len(available@) as usize)
                    &&& final(self).stream_view() == t
                },
                Err(_) => r is Err,
            },
            r is Ok ==> final(self).parser_view().context_view() == old(self).parser_view().context_view(),
            r is Ok ==> final(self).parser_view().limits_view() == old(self).parser_view().limits_view(),
            r is Ok ==> final(self).consumed() == old(self).consumed() + available@.take(step_len(available@)),
            r is Err ==> {
                &&& final(self).stream_view() == old(self).stream_view()
                &&& final(self).consumed() == old(self).consumed()
                &&& final(self).parser_view().context_view() == old(self).parser_view().context_view()
                &&& final(self).parser_view().limits_view() == old(self).parser_view().limits_view()
                &&& feed_bytes(
                    old(self).parser_view().context_view(),
                    old(self).parser_view().limits_view(),
                    initial_stream(old(self).parser_view().context_view()),
                    old(self).consumed() + available@.take(step_len(available@)),
                ) is Err
            },
    {
        let (take, has_newline) = step(available);
        proof {
            let c = available@.take(take as int);
            assert forall|i: int| 0 <= i < c.len() - 1 implies c[i] != 10u8 by {
                assert(c[i] == available@[i]);
            }
            lemma_feed_step(
                self.parser.context_view(),
                self.parser.limits_view(),
                self.stream_view(),
                c,
            );
            lemma_feed_bytes_split(
                self.parser.context_view(),
                self.parser.limits_view(),
                initial_stream(self.parser.context_view()),
                self.consumed@,
                c,
            );
        }
        let ghost taken = available@.take(take as int);
        let ghost before = self.consumed@;
        let decoded_before = self.parser.decoded_bytes();
        check_line_growth(self.line.len(), take, decoded_before, &self.parser.limits_exec())?;
        let pending_len = self.line.len();
        let mut line: Vec<u8> = Vec::new();
        std::mem::swap(&mut line, &mut self.line);
        append_bytes(&mut line, available, take);
        if has_newline {
            match self.parser.feed_line(line.as_slice()) {
                Ok(()) => {},
                Err(e) => {
                    line.truncate(pending_len);
                    self.line = line;
                    assert(self.line@ =~= old(self).line@);
                    return Err(e);
                },
            }
        } else {
            self.line = line;
        }
        self.consumed = Ghost(before + taken);
        Ok(take)
    }

    /// The parsed log, once the stream has ended: a last line without a
    /// newline is parsed first.
    pub fn finish(self) -> (r: Result<ParsedLog, LogParseLimitExceeded>)
        requires
            self.wf(),
        ensures
            self.pending_view().len() == 0 ==> (r matches Ok(p) && finished(
                p,
                self.parser_view().context_view(),
                self.parser_view().evidence_view(),
                self.parser_view().diagnostics_view(),
                self.parser_view().state_view(),
                self.parser_view().offset_view(),
            )),
            self.pending_view().len() > 0 ==> match feed_spec(
                self.parser_view().context_view(),
                self.parser_view().limits_view(),
                self.parser_view().evidence_view(),
                self.parser_view().diagnostics_view(),
                self.parser_view().state_view(),
                self.parser_view().offset_view(),
                self.pending_view(),
            ) {
                Ok((ev, d, st, off)) => (r matches Ok(p) && finished(
                    p,
                    self.parser_view().context_view(),
                    ev,
                    d,
                    st,
                    off,
                )),
                Err(e) => r == Err::<ParsedLog, LogParseLimitExceeded>(e),
            },
            r matches Ok(p) ==> parsed_log_sound(
                p,
                self.parser_view().context_view(),
                self.parser_view().limits_view(),
            ),
            r matches Ok(p) ==> log_accepted(p),
            match finish_result(
                self.parser_view().context_view(),
                self.parser_view().limits_view(),
                self.stream_view(),
            ) {
                Ok((ev, d)) => r matches Ok(p) && p.context == self.parser_view().context_view()
                    && evidence_views(p.evidence@) == ev && p.diagnostics == d,
                Err(e) => r == Err::<ParsedLog, LogParseLimitExceeded>(e),
            },
    {
        let mut parser = self.parser;
        if self.line.len() > 0 {
            parser.feed_line(self.line.as_slice())?;
        }
        Ok(parser.finish())
    }
}

/// A reader's state is the stream it has taken: fed byte by byte from the
/// start, those bytes give exactly the reader's state.
pub proof fn lemma_reader_follows_stream(r: LogReader)
    requires
        r.wf(),
    ensures
        feed_bytes(
            r.parser_view().context_view(),
            r.parser_view().limits_view(),
            initial_stream(r.parser_view().context_view()),
            r.consumed(),
        ) == Ok::<StreamState, LogParseLimitExceeded>(r.stream_view()),
{
}

/// The parse of a stream does not depend on where the reader's buffer
/// ended: two readers with the same context and limits that have taken the
/// same bytes, in whatever steps, are in the same state and finish alike.
pub proof fn law_parse_ignores_chunk_boundaries(a: LogReader, b: LogReader)
    requires
        a.wf(),
        b.wf(),
        a.parser_view().context_view() == b.parser_view().context_view(),
        a.parser_view().limits_view() == b.parser_view().limits_view(),
        a.consumed() == b.consumed(),
    ensures
        a.stream_view() == b.stream_view(),
        finish_result(a.parser_view().context_view(), a.parser_view().limits_view(), a.stream_view())
            == finish_result(b.parser_view().context_view(), b.parser_view().limits_view(), b.stream_view()),
{
    lemma_reader_follows_stream(a);
    lemma_reader_follows_stream(b);
}

/// Once a stream's first bytes are refused, every stream that begins with
/// them is refused: a refusal met in one chunking is met in every other.
pub proof fn law_refusal_persists(
    context: LogParseContext,
    limits: LogParseLimits,
    first: Seq<u8>,
    rest: Seq<u8>,
)
    requires
        feed_bytes(context, limits, initial_stream(context), first) is Err,
    ensures
        feed_bytes(context, limits, initial_stream(context), first + rest) is Err,
{
    lemma_feed_bytes_split(context, limits, initial_stream(context), first, rest);
}

} // verus!
