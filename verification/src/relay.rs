//! A relay: the consumer of one output stream of the child process.
//!
//! One relay context blocks on reads of one stream (outside this library)
//! and hands what it read to [`Relay::step`], which is verified: it cuts the
//! bytes into lines, tags each with the relay's stream, and appends them to
//! the log sink. At end of stream the relay stops; on a read error it stops
//! too, after reporting the failure as a structured event through the same
//! sink — recorded for the operator, never raised to the supervisor.
//!
//! The proof functions at the end state the stream guarantee: over any
//! division of a stream into reads, a relay emits exactly the lines of the
//! whole stream, unmodified, once each, in emission order — and no
//! interleaving with the other relay in the shared sink can disturb that.

use vstd::prelude::*;

use crate::line_buffer::LineBuffer;
use crate::line_buffer::complete_lines;
use crate::line_buffer::residual;
use crate::line_buffer::lemma_split_append;
use crate::log_sink::LogEvent;
use crate::log_sink::LogEventModel;
use crate::log_sink::LogLine;
use crate::log_sink::LogLineModel;
use crate::log_sink::LogSink;
use crate::log_sink::StreamTag;
use crate::log_sink::all_tagged;
use crate::log_sink::event_tag;
use crate::log_sink::is_interleaving;
use crate::log_sink::lemma_interleaving_preserves_streams;
use crate::log_sink::lemma_tagged_projection;
use crate::log_sink::lemma_texts_with_tag_snoc_other;
use crate::log_sink::tagged;
use crate::log_sink::texts_with_tag;

verus! {

broadcast use vstd::seq_lib::lemma_seq_skip_index, vstd::seq_lib::lemma_seq_skip_len;

/// What one read of the stream produced: some bytes, end of stream, or an
/// I/O failure.
pub enum ReadEvent {
    Data(Vec<u8>),
    Eof,
    ReadError,
}

/// What the relay reports after consuming one read. A failure stops the
/// relay and is recorded in the sink; it is never raised to the supervisor.
#[derive(Clone, Copy, Debug, PartialEq, Eq, Structural)]
pub enum RelayStatus {
    Active,
    EndOfStream,
    Failed,
}

/// The relay's state: its stream tag, the unfinished line carried between
/// reads, and whether it has stopped.
pub struct Relay {
    tag: StreamTag,
    buf: LineBuffer,
    done: bool,
}

impl Relay {
    /// The stream this relay serves.
    pub closed spec fn tag(&self) -> StreamTag {
        self.tag
    }

    /// The unfinished line carried between reads.
    pub closed spec fn pending(&self) -> Seq<u8> {
        self.buf@
    }

    /// True once the relay has seen end of stream or a read error.
    pub closed spec fn is_done(&self) -> bool {
        self.done
    }

    /// A fresh relay for one stream: nothing buffered, still running.
    pub fn new(tag: StreamTag) -> (r: Relay)
        ensures
            r.tag() == tag,
            r.pending() == Seq::<u8>::empty(),
            !r.is_done(),
    {
        Relay { tag, buf: LineBuffer::new(), done: false }
    }

    /// Consumes one read of the stream.
    ///
    /// Bytes append to the sink exactly the lines they complete, tagged with
    /// this relay's stream, in order. End of stream flushes the unfinished
    /// last line, if any, and stops the relay. A read error stops the relay
    /// after appending one structured failure notice for this stream to the
    /// sink: reported to the operator through the same channel as the lines,
    /// never escalated, never retried.
    pub fn step(&mut self, event: ReadEvent, sink: &mut LogSink) -> (status: RelayStatus)
        requires
            !old(self).is_done(),
        ensures
            final(self).tag() == old(self).tag(),
            (match event {
                ReadEvent::Data(c) => {
                    &&& !final(self).is_done()
                    &&& final(self).pending() == residual(old(self).pending() + c@)
                    &&& final(sink)@ == old(sink)@ + tagged(
                        complete_lines(old(self).pending() + c@),
                        old(self).tag(),
                    )
                    &&& status == RelayStatus::Active
                },
                ReadEvent::Eof => {
                    &&& final(self).is_done()
                    &&& final(self).pending() == Seq::<u8>::empty()
                    &&& final(sink)@ == old(sink)@ + tagged(
                        eof_emitted(old(self).pending()),
                        old(self).tag(),
                    )
                    &&& status == RelayStatus::EndOfStream
                },
                ReadEvent::ReadError => {
                    &&& final(self).is_done()
                    &&& final(sink)@ == old(sink)@.push(
                        LogEventModel::ReadFailure(old(self).tag()),
                    )
                    &&& status == RelayStatus::Failed
                },
            }),
    {
        let ghost p0 = self.buf@;
        let ghost t = self.tag;
        let ghost sink0 = sink@;
        match event {
            ReadEvent::Data(c) => {
                let mut rest = self.buf.feed(c.as_slice());
                let ghost full: Seq<Seq<u8>> = complete_lines(p0 + c@);
                let ghost mut k: int = 0;
                proof {
                    assert(rest.deep_view() =~= full.skip(0));
                    assert(sink@ =~= sink0 + tagged(full.take(0), t));
                }
                while rest.len() > 0
                    invariant
                        0 <= k <= full.len(),
                        rest.deep_view() == full.skip(k),
                        sink@ == sink0 + tagged(full.take(k), t),
                        self.tag == t,
                    decreases rest.len(),
                {
                    let ghost rest0 = rest;
                    let text = rest.remove(0);
                    proof {
                        assert(rest0.deep_view().len() == rest0@.len());
                        assert(full.skip(k).len() == full.len() - k);
                        assert(rest0.deep_view()[0] == rest0@[0].deep_view());
                        assert(full.skip(k)[0] == full[k]);
                        assert(text.deep_view() =~= text@);
                        assert(text@ == full[k]);
                        assert forall|j: int| 0 <= j < rest@.len() implies rest.deep_view()[j]
                            == full.skip(k + 1)[j] by {
                            assert(rest@[j] == rest0@[j + 1]);
                            assert(rest.deep_view()[j] == rest@[j].deep_view());
                            assert(rest0.deep_view()[j + 1] == rest0@[j + 1].deep_view());
                            assert(full.skip(k)[j + 1] == full[k + j + 1]);
                            assert(full.skip(k + 1)[j] == full[k + j + 1]);
                        }
                        assert(rest.deep_view() =~= full.skip(k + 1));
                    }
                    let event = LogEvent::Line(LogLine { tag: self.tag, text });
                    proof {
                        assert(event@ == LogEventModel::Line(LogLineModel { tag: t, text: full[k] }));
                    }
                    sink.append(event);
                    proof {
                        k = k + 1;
                        assert(tagged(full.take(k), t) =~= tagged(full.take(k - 1), t).push(
                            LogEventModel::Line(LogLineModel { tag: t, text: full[k - 1] }),
                        ));
                    }
                }
                proof {
                    assert(full.skip(k).len() == 0);
                    assert(k == full.len());
                    assert(full.take(k) =~= full);
                }
                RelayStatus::Active
            },
            ReadEvent::Eof => {
                self.done = true;
                if self.buf.is_empty() {
                    proof {
                        assert(tagged(eof_emitted(p0), t) =~= Seq::<LogEventModel>::empty());
                        assert(sink@ =~= sink0 + tagged(eof_emitted(p0), t));
                        assert(self.pending() =~= Seq::<u8>::empty());
                    }
                } else {
                    let text = self.buf.take_pending();
                    let event = LogEvent::Line(LogLine { tag: self.tag, text });
                    sink.append(event);
                    proof {
                        assert(tagged(eof_emitted(p0), t) =~= seq![
                            LogEventModel::Line(LogLineModel { tag: t, text: p0 }),
                        ]);
                        assert(sink@ =~= sink0 + tagged(eof_emitted(p0), t));
                    }
                }
                RelayStatus::EndOfStream
            },
            ReadEvent::ReadError => {
                self.done = true;
                sink.append(LogEvent::ReadFailure(self.tag));
                RelayStatus::Failed
            },
        }
    }
}

/// The line text emitted at end of stream: the unfinished last line, if one
/// was left unterminated.
pub open spec fn eof_emitted(pending: Seq<u8>) -> Seq<Seq<u8>> {
    if pending.len() == 0 {
        Seq::empty()
    } else {
        seq![pending]
    }
}

/// All lines of a whole stream, in emission order: its complete lines, then
/// the unterminated last line, if any.
pub open spec fn stream_lines(s: Seq<u8>) -> Seq<Seq<u8>> {
    complete_lines(s) + eof_emitted(residual(s))
}

/// The byte stream that a sequence of reads delivered: the chunks,
/// concatenated in read order.
pub open spec fn concat_chunks(cs: Seq<Seq<u8>>) -> Seq<u8>
    decreases cs.len(),
{
    if cs.len() == 0 {
        Seq::empty()
    } else {
        concat_chunks(cs.drop_last()) + cs.last()
    }
}

/// The unfinished line a relay holds after consuming the reads `cs`,
/// starting fresh — iterating what [`Relay::step`] ensures of each read.
pub open spec fn run_pending(cs: Seq<Seq<u8>>) -> Seq<u8>
    decreases cs.len(),
{
    if cs.len() == 0 {
        Seq::empty()
    } else {
        residual(run_pending(cs.drop_last()) + cs.last())
    }
}

/// The line texts a relay emits while consuming the reads `cs`, starting
/// fresh: for each read, the lines that read completes, in order.
pub open spec fn run_emitted(cs: Seq<Seq<u8>>) -> Seq<Seq<u8>>
    decreases cs.len(),
{
    if cs.len() == 0 {
        Seq::empty()
    } else {
        run_emitted(cs.drop_last()) + complete_lines(run_pending(cs.drop_last()) + cs.last())
    }
}

/// The per-stream guarantee: however a stream is divided into reads, a
/// relay that consumes every read and then end of stream emits exactly the
/// lines of the whole stream — each line of the child once, unmodified, in
/// emission order, and nothing else.
pub proof fn lemma_run_emits_stream(cs: Seq<Seq<u8>>)
    ensures
        run_pending(cs) == residual(concat_chunks(cs)),
        run_emitted(cs) == complete_lines(concat_chunks(cs)),
        run_emitted(cs) + eof_emitted(run_pending(cs)) == stream_lines(concat_chunks(cs)),
    decreases cs.len(),
{
    if cs.len() == 0 {
        assert(run_pending(cs) =~= residual(concat_chunks(cs)));
        assert(run_emitted(cs) =~= complete_lines(concat_chunks(cs)));
    } else {
        let dl = cs.drop_last();
        lemma_run_emits_stream(dl);
        lemma_split_append(concat_chunks(dl), cs.last());
        assert(concat_chunks(cs) == concat_chunks(dl) + cs.last());
        assert(run_emitted(cs) == complete_lines(concat_chunks(dl)) + complete_lines(
            residual(concat_chunks(dl)) + cs.last(),
        ));
    }
}

/// The whole-system guarantee: let the child's stdout arrive in the reads
/// `outs` and its stderr in the reads `errs`, let each relay consume its
/// reads and then end of stream, and let their appends interleave in the
/// shared sink in any order. Reading the sink by tag then yields exactly
/// the lines of each whole stream, unmodified, once each, in emission
/// order; across the two streams no order is promised.
pub proof fn lemma_sink_carries_both_streams(
    sink: Seq<LogEventModel>,
    outs: Seq<Seq<u8>>,
    errs: Seq<Seq<u8>>,
)
    requires
        is_interleaving(
            sink,
            tagged(run_emitted(outs) + eof_emitted(run_pending(outs)), StreamTag::Stdout),
            tagged(run_emitted(errs) + eof_emitted(run_pending(errs)), StreamTag::Stderr),
        ),
    ensures
        texts_with_tag(sink, StreamTag::Stdout) == stream_lines(concat_chunks(outs)),
        texts_with_tag(sink, StreamTag::Stderr) == stream_lines(concat_chunks(errs)),
{
    lemma_run_emits_stream(outs);
    lemma_run_emits_stream(errs);
    let out_lines = stream_lines(concat_chunks(outs));
    let err_lines = stream_lines(concat_chunks(errs));
    lemma_tagged_projection(out_lines, StreamTag::Stdout);
    lemma_tagged_projection(err_lines, StreamTag::Stderr);
    lemma_interleaving_preserves_streams(
        sink,
        tagged(out_lines, StreamTag::Stdout),
        tagged(err_lines, StreamTag::Stderr),
    );
}

/// What a failing stream leaves behind: a relay whose reads `cs` succeed
/// and whose next read fails has appended every line completed so far —
/// none lost, none changed, in order — and its own stream's events end in
/// exactly one structured failure notice; the text projection on its tag
/// still reads back those completed lines alone.
pub proof fn lemma_failed_run_reports_failure(cs: Seq<Seq<u8>>, tag: StreamTag)
    ensures
        all_tagged(tagged(run_emitted(cs), tag).push(LogEventModel::ReadFailure(tag)), tag),
        texts_with_tag(tagged(run_emitted(cs), tag).push(LogEventModel::ReadFailure(tag)), tag)
            == complete_lines(concat_chunks(cs)),
{
    lemma_run_emits_stream(cs);
    lemma_tagged_projection(run_emitted(cs), tag);
    let s = tagged(run_emitted(cs), tag);
    let e = LogEventModel::ReadFailure(tag);
    lemma_texts_with_tag_snoc_other(s, e, tag);
    assert forall|i: int| 0 <= i < s.push(e).len() implies event_tag(#[trigger] s.push(e)[i])
        == tag by {
        if i < s.len() {
            assert(s.push(e)[i] == s[i]);
        } else {
            assert(s.push(e)[i] == e);
        }
    }
}

} // verus!
