//! The log sink: an append-only list of tagged events.
//!
//! Two relays — one per output stream of the child process — append to one
//! sink, in whatever order the scheduler lets them run. An event is either
//! one line of child output or a structured read-failure notice, each
//! carrying its stream of origin. The law
//! [`lemma_interleaving_preserves_streams`] states that no interleaving can
//! disturb a single stream: reading only the lines of one tag recovers that
//! stream's lines, unchanged and in emission order.

use vstd::prelude::*;

verus! {

/// Which output stream of the child an event came from.
#[derive(Clone, Copy, Debug, PartialEq, Eq, Structural)]
pub enum StreamTag {
    Stdout,
    Stderr,
}

/// One line of child output, tagged with its stream of origin.
#[derive(Debug, PartialEq, Eq)]
pub struct LogLine {
    pub tag: StreamTag,
    pub text: Vec<u8>,
}

/// What a relay appends to the sink: a line the child wrote, or the notice
/// that reading the tagged stream failed and the relay stopped.
#[derive(Debug, PartialEq, Eq)]
pub enum LogEvent {
    Line(LogLine),
    ReadFailure(StreamTag),
}

/// The mathematical value of a [`LogLine`].
pub ghost struct LogLineModel {
    pub tag: StreamTag,
    pub text: Seq<u8>,
}

/// The mathematical value of a [`LogEvent`].
pub ghost enum LogEventModel {
    Line(LogLineModel),
    ReadFailure(StreamTag),
}

impl View for LogLine {
    type V = LogLineModel;

    open spec fn view(&self) -> LogLineModel {
        LogLineModel { tag: self.tag, text: self.text@ }
    }
}

impl View for LogEvent {
    type V = LogEventModel;

    open spec fn view(&self) -> LogEventModel {
        match self {
            LogEvent::Line(line) => LogEventModel::Line(line@),
            LogEvent::ReadFailure(tag) => LogEventModel::ReadFailure(*tag),
        }
    }
}

/// The stream an event came from, whichever kind it is.
pub open spec fn event_tag(e: LogEventModel) -> StreamTag {
    match e {
        LogEventModel::Line(line) => line.tag,
        LogEventModel::ReadFailure(tag) => tag,
    }
}

/// True when `e` is a line of child output on the stream `tag`.
pub open spec fn is_line_of(e: LogEventModel, tag: StreamTag) -> bool {
    e matches LogEventModel::Line(line) && line.tag == tag
}

/// The given line texts as sink events, each tagged with `tag`, in the
/// given order.
pub open spec fn tagged(texts: Seq<Seq<u8>>, tag: StreamTag) -> Seq<LogEventModel> {
    texts.map_values(|t: Seq<u8>| LogEventModel::Line(LogLineModel { tag, text: t }))
}

/// The texts of the child lines of `s` that carry `tag`, in the order they
/// stand in `s`. Failure notices carry no text and are passed over.
pub open spec fn texts_with_tag(s: Seq<LogEventModel>, tag: StreamTag) -> Seq<Seq<u8>>
    decreases s.len(),
{
    if s.len() == 0 {
        Seq::empty()
    } else if is_line_of(s.first(), tag) {
        seq![s.first()->Line_0.text] + texts_with_tag(s.drop_first(), tag)
    } else {
        texts_with_tag(s.drop_first(), tag)
    }
}

/// True when every event of `s` came from the stream `tag`.
pub open spec fn all_tagged(s: Seq<LogEventModel>, tag: StreamTag) -> bool {
    forall|i: int| 0 <= i < s.len() ==> event_tag(#[trigger] s[i]) == tag
}

/// True when `s` is some merge of `a` and `b`: every event of `a` and of
/// `b` appears in `s` exactly once, each of the two keeping its own order,
/// and nothing else appears.
pub open spec fn is_interleaving(
    s: Seq<LogEventModel>,
    a: Seq<LogEventModel>,
    b: Seq<LogEventModel>,
) -> bool
    decreases s.len(),
{
    if s.len() == 0 {
        a.len() == 0 && b.len() == 0
    } else {
        ||| (a.len() > 0 && s.first() == a.first() && is_interleaving(
            s.drop_first(),
            a.drop_first(),
            b,
        ))
        ||| (b.len() > 0 && s.first() == b.first() && is_interleaving(
            s.drop_first(),
            a,
            b.drop_first(),
        ))
    }
}

/// However the two relays' appends interleave in the sink, each stream
/// survives intact: reading only one tag's lines out of the merge yields
/// the same texts as reading them out of that relay's own output, in the
/// same order.
pub proof fn lemma_interleaving_preserves_streams(
    s: Seq<LogEventModel>,
    a: Seq<LogEventModel>,
    b: Seq<LogEventModel>,
)
    requires
        is_interleaving(s, a, b),
        all_tagged(a, StreamTag::Stdout),
        all_tagged(b, StreamTag::Stderr),
    ensures
        texts_with_tag(s, StreamTag::Stdout) == texts_with_tag(a, StreamTag::Stdout),
        texts_with_tag(s, StreamTag::Stderr) == texts_with_tag(b, StreamTag::Stderr),
    decreases s.len(),
{
    if s.len() == 0 {
    } else if a.len() > 0 && s.first() == a.first() && is_interleaving(
        s.drop_first(),
        a.drop_first(),
        b,
    ) {
        assert(forall|i: int| 0 <= i < a.drop_first().len() ==> event_tag(
            #[trigger] a.drop_first()[i],
        ) == StreamTag::Stdout);
        lemma_interleaving_preserves_streams(s.drop_first(), a.drop_first(), b);
        assert(event_tag(a.first()) == StreamTag::Stdout);
    } else {
        assert(b.len() > 0 && s.first() == b.first() && is_interleaving(
            s.drop_first(),
            a,
            b.drop_first(),
        ));
        assert(forall|i: int| 0 <= i < b.drop_first().len() ==> event_tag(
            #[trigger] b.drop_first()[i],
        ) == StreamTag::Stderr);
        lemma_interleaving_preserves_streams(s.drop_first(), a, b.drop_first());
        assert(event_tag(b.first()) == StreamTag::Stderr);
    }
}

/// Lines tagged together read back as themselves: projecting `tagged`
/// output on its own tag is the identity.
pub proof fn lemma_tagged_projection(texts: Seq<Seq<u8>>, tag: StreamTag)
    ensures
        texts_with_tag(tagged(texts, tag), tag) == texts,
        all_tagged(tagged(texts, tag), tag),
    decreases texts.len(),
{
    if texts.len() == 0 {
    } else {
        lemma_tagged_projection(texts.drop_first(), tag);
        let t = tagged(texts, tag);
        assert(t.first() == LogEventModel::Line(LogLineModel { tag, text: texts.first() }));
        assert(t.drop_first() =~= tagged(texts.drop_first(), tag));
        assert(texts_with_tag(t, tag) =~= seq![texts.first()] + texts.drop_first());
        assert(seq![texts.first()] + texts.drop_first() =~= texts);
    }
}

/// Appending an event that is no child line of `tag` — a failure notice,
/// or anything from the other stream — leaves the projection on `tag` as
/// it was.
pub proof fn lemma_texts_with_tag_snoc_other(
    s: Seq<LogEventModel>,
    e: LogEventModel,
    tag: StreamTag,
)
    requires
        !is_line_of(e, tag),
    ensures
        texts_with_tag(s.push(e), tag) == texts_with_tag(s, tag),
    decreases s.len(),
{
    if s.len() == 0 {
        assert(s.push(e).first() == e);
        assert(s.push(e).drop_first() =~= Seq::<LogEventModel>::empty());
        assert(texts_with_tag(s.push(e), tag) == texts_with_tag(
            Seq::<LogEventModel>::empty(),
            tag,
        ));
    } else {
        assert(s.push(e).first() == s.first());
        assert(s.push(e).drop_first() =~= s.drop_first().push(e));
        lemma_texts_with_tag_snoc_other(s.drop_first(), e, tag);
        if is_line_of(s.first(), tag) {
            assert(texts_with_tag(s.push(e), tag) == seq![s.first()->Line_0.text]
                + texts_with_tag(s.drop_first().push(e), tag));
            assert(texts_with_tag(s, tag) == seq![s.first()->Line_0.text] + texts_with_tag(
                s.drop_first(),
                tag,
            ));
        } else {
            assert(texts_with_tag(s.push(e), tag) == texts_with_tag(
                s.drop_first().push(e),
                tag,
            ));
            assert(texts_with_tag(s, tag) == texts_with_tag(s.drop_first(), tag));
        }
    }
}

/// The destination of relayed events: an append-only list, read back by
/// index. Its view is the sequence of event models in append order.
pub struct LogSink {
    events: Vec<LogEvent>,
}

impl View for LogSink {
    type V = Seq<LogEventModel>;

    closed spec fn view(&self) -> Seq<LogEventModel> {
        self.events@.map_values(|e: LogEvent| e@)
    }
}

impl LogSink {
    /// An empty sink.
    pub fn new() -> (s: LogSink)
        ensures
            s@ == Seq::<LogEventModel>::empty(),
    {
        let s = LogSink { events: Vec::new() };
        proof {
            assert(s@ =~= Seq::<LogEventModel>::empty());
        }
        s
    }

    /// Appends one event at the end; everything already in the sink stays
    /// where it is.
    pub fn append(&mut self, event: LogEvent)
        ensures
            final(self)@ == old(self)@.push(event@),
    {
        let ghost before = self@;
        let ghost model = event@;
        self.events.push(event);
        proof {
            assert(self@ =~= before.push(model));
        }
    }

    /// How many events the sink holds.
    pub fn len(&self) -> (n: usize)
        ensures
            n == self@.len(),
    {
        self.events.len()
    }

    /// The event at position `i`, in append order.
    pub fn event_at(&self, i: usize) -> (e: &LogEvent)
        requires
            i < self@.len(),
        ensures
            e@ == self@[i as int],
    {
        &self.events[i]
    }
}

} // verus!
