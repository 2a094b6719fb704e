use crate::events::{EventView, ProcessEvent, StreamOrigin};
use vstd::prelude::*;

verus! {

/// What one attempt to read the next line from a pipe gave.
#[derive(Debug, PartialEq, Eq)]
pub enum ReadOutcome {
    /// A complete line, without its line ending.
    Line(String),
    /// The pipe has reached its end.
    Closed,
    /// The read failed. The streamer treats this like the end of the pipe.
    Failed,
}

/// The mathematical value of a `ReadOutcome`.
pub enum ReadView {
    Line(Seq<char>),
    Closed,
    Failed,
}

impl View for ReadOutcome {
    type V = ReadView;

    open spec fn view(&self) -> ReadView {
        match self {
            ReadOutcome::Line(line) => ReadView::Line(line@),
            ReadOutcome::Closed => ReadView::Closed,
            ReadOutcome::Failed => ReadView::Failed,
        }
    }
}

/// What the streamer's owner has to do after a read.
#[derive(Debug, PartialEq, Eq)]
pub enum StreamerAction {
    /// Hand this event to the sink at once.
    Forward(ProcessEvent),
    /// Stop reading both pipes, remove the registry entry and announce the
    /// exit. Asked for once in a streamer's life.
    Conclude,
    /// Nothing: the streamer had concluded before this read.
    Idle,
}

/// The mathematical value of a `StreamerAction`.
pub enum ActionView {
    Forward(EventView),
    Conclude,
    Idle,
}

impl View for StreamerAction {
    type V = ActionView;

    open spec fn view(&self) -> ActionView {
        match self {
            StreamerAction::Forward(event) => ActionView::Forward(event@),
            StreamerAction::Conclude => ActionView::Conclude,
            StreamerAction::Idle => ActionView::Idle,
        }
    }
}

/// The mathematical value of a `LogStreamer`.
pub struct StreamerView {
    pub id: Seq<char>,
    pub mark: u64,
    pub concluded: bool,
}

/// One read performed on behalf of a streamer: the pipe and what it gave.
pub type Read = (StreamOrigin, ReadView);

/// The state of a streamer that has read nothing yet, for the launch
/// under `id` that bears `mark`.
pub open spec fn fresh(id: Seq<char>, mark: u64) -> StreamerView {
    StreamerView { id, mark, concluded: false }
}

/// The streamer's rule: the state after a read and what the read asks for.
///
/// A line is forwarded whichever pipe it came from. The first read, on
/// either pipe, that is not a line concludes the streamer; it does not wait
/// for the other pipe. After that nothing is forwarded any more.
pub open spec fn step(state: StreamerView, origin: StreamOrigin, read: ReadView) -> (
    StreamerView,
    ActionView,
) {
    if state.concluded {
        (state, ActionView::Idle)
    } else {
        match read {
            ReadView::Line(line) => (
                state,
                ActionView::Forward(EventView::Output { id: state.id, origin, line }),
            ),
            _ => (
                StreamerView { id: state.id, mark: state.mark, concluded: true },
                ActionView::Conclude,
            ),
        }
    }
}

/// The actions that a streamer in `state` asks for over a run of reads.
pub open spec fn actions(state: StreamerView, reads: Seq<Read>) -> Seq<ActionView>
    decreases reads.len(),
{
    if reads.len() == 0 {
        Seq::empty()
    } else {
        let (next, action) = step(state, reads[0].0, reads[0].1);
        seq![action] + actions(next, reads.drop_first())
    }
}

/// What the sink sees of a fresh streamer for `id` over a run of reads:
/// each forwarded event, and the exit notification where the streamer
/// concludes. The launch's mark plays no part in it.
pub open spec fn emitted(id: Seq<char>, reads: Seq<Read>) -> Seq<EventView> {
    published(id, actions(fresh(id, 0), reads))
}

/// The events that carrying out `actions` for `id` publishes.
pub open spec fn published(id: Seq<char>, actions: Seq<ActionView>) -> Seq<EventView>
    decreases actions.len(),
{
    if actions.len() == 0 {
        Seq::empty()
    } else {
        let first = match actions[0] {
            ActionView::Forward(event) => seq![event],
            ActionView::Conclude => seq![EventView::Exited { id }],
            ActionView::Idle => Seq::empty(),
        };
        first + published(id, actions.drop_first())
    }
}

/// How many reads come before the first one that is not a line.
pub open spec fn live_prefix(reads: Seq<Read>) -> nat
    decreases reads.len(),
{
    if reads.len() == 0 {
        0
    } else if reads[0].1 is Line {
        1 + live_prefix(reads.drop_first())
    } else {
        0
    }
}

/// The lines read from `origin`, in order, before the first read on either
/// pipe that is not a line.
pub open spec fn lines_read(reads: Seq<Read>, origin: StreamOrigin) -> Seq<Seq<char>>
    decreases reads.len(),
{
    if reads.len() == 0 {
        Seq::empty()
    } else {
        match reads[0].1 {
            ReadView::Line(line) => {
                let first = if reads[0].0 == origin {
                    seq![line]
                } else {
                    Seq::empty()
                };
                first + lines_read(reads.drop_first(), origin)
            },
            _ => Seq::empty(),
        }
    }
}

/// The lines of the `Output` events for `origin` among `events`, in order.
pub open spec fn lines_seen(events: Seq<EventView>, origin: StreamOrigin) -> Seq<Seq<char>>
    decreases events.len(),
{
    if events.len() == 0 {
        Seq::empty()
    } else {
        let first = match events[0] {
            EventView::Output { id, origin: from, line } => if from == origin {
                seq![line]
            } else {
                Seq::empty()
            },
            EventView::Exited { id } => Seq::empty(),
        };
        first + lines_seen(events.drop_first(), origin)
    }
}

/// Streams the output of one managed process.
///
/// The streamer itself reads nothing. Its owner waits on both pipes, hands
/// each outcome to `on_read` as it arrives, and carries out the action that
/// comes back. It bears the mark of its own launch, so that its conclusion
/// can be told apart from that of any other launch under the same
/// identifier.
#[derive(Debug, PartialEq, Eq)]
pub struct LogStreamer {
    id: String,
    mark: u64,
    concluded: bool,
}

impl View for LogStreamer {
    type V = StreamerView;

    closed spec fn view(&self) -> StreamerView {
        StreamerView { id: self.id@, mark: self.mark, concluded: self.concluded }
    }
}

impl LogStreamer {
    /// A streamer for the launch under `id` that bears `mark`.
    pub fn new(id: String, mark: u64) -> (res: Self)
        ensures
            res@ == fresh(id@, mark),
    {
        LogStreamer { id, mark, concluded: false }
    }

    /// The mark of the launch whose output is streamed.
    pub fn mark(&self) -> (res: u64)
        ensures
            res == self@.mark,
    {
        self.mark
    }

    /// The identifier of the process whose output is streamed.
    pub fn id(&self) -> (res: &str)
        ensures
            res@ == self@.id,
    {
        self.id.as_str()
    }

    /// Whether the streamer has asked to conclude.
    pub fn is_concluded(&self) -> (res: bool)
        ensures
            res == self@.concluded,
    {
        self.concluded
    }

    /// Takes in what a read on the pipe `origin` gave and says what to do.
    pub fn on_read(&mut self, origin: StreamOrigin, outcome: ReadOutcome) -> (action:
        StreamerAction)
        ensures
            final(self)@ == step(old(self)@, origin, outcome@).0,
            action@ == step(old(self)@, origin, outcome@).1,
    {
        if self.concluded {
            return StreamerAction::Idle;
        }
        match outcome {
            ReadOutcome::Line(line) => StreamerAction::Forward(
                ProcessEvent::Output { id: self.id.clone(), origin, line },
            ),
            ReadOutcome::Closed => {
                self.concluded = true;
                StreamerAction::Conclude
            },
            ReadOutcome::Failed => {
                self.concluded = true;
                StreamerAction::Conclude
            },
        }
    }
}

/// What a streamer asks for depends on its identifier and on whether it
/// has concluded; the mark of its launch plays no part.
pub proof fn lemma_actions_ignore_mark(a: StreamerView, b: StreamerView, reads: Seq<Read>)
    requires
        a.id == b.id,
        a.concluded == b.concluded,
    ensures
        actions(a, reads) == actions(b, reads),
    decreases reads.len(),
{
    if reads.len() > 0 {
        let next_a = step(a, reads[0].0, reads[0].1).0;
        let next_b = step(b, reads[0].0, reads[0].1).0;
        lemma_actions_ignore_mark(next_a, next_b, reads.drop_first());
    }
}

/// A concluded streamer stays idle: no read makes it publish anything.
pub proof fn lemma_concluded_is_silent(state: StreamerView, reads: Seq<Read>)
    requires
        state.concluded,
    ensures
        published(state.id, actions(state, reads)) == Seq::<EventView>::empty(),
    decreases reads.len(),
{
    if reads.len() > 0 {
        lemma_concluded_is_silent(state, reads.drop_first());
        let acts = actions(state, reads);
        assert(acts[0] == ActionView::Idle);
        assert(acts.drop_first() =~= actions(state, reads.drop_first()));
    }
}

/// The sink sees one `Output` event for each line read while the streamer
/// is live, in the order of the reads, and then, if a read ended the
/// stream, one `Exited` event and nothing after it.
pub proof fn lemma_exit_once(id: Seq<char>, reads: Seq<Read>)
    ensures
        live_prefix(reads) <= reads.len(),
        emitted(id, reads).len() == live_prefix(reads) + (if live_prefix(reads) < reads.len() {
            1nat
        } else {
            0nat
        }),
        forall|i: int|
            0 <= i < live_prefix(reads) ==> #[trigger] emitted(id, reads)[i] == (EventView::Output {
                id,
                origin: reads[i].0,
                line: reads[i].1->Line_0,
            }),
        live_prefix(reads) < reads.len() ==> emitted(id, reads).last() == (EventView::Exited {
            id,
        }),
    decreases reads.len(),
{
    if reads.len() > 0 {
        let rest = reads.drop_first();
        let acts = actions(fresh(id, 0), reads);
        let (next, action) = step(fresh(id, 0), reads[0].0, reads[0].1);
        assert(acts.drop_first() =~= actions(next, rest));
        if reads[0].1 is Line {
            lemma_exit_once(id, rest);
            assert(next == fresh(id, 0));
            let tail = emitted(id, rest);
            assert(emitted(id, reads) =~= seq![
                EventView::Output { id, origin: reads[0].0, line: reads[0].1->Line_0 },
            ] + tail);
            assert forall|i: int| 0 <= i < live_prefix(reads) implies #[trigger] emitted(
                id,
                reads,
            )[i] == (EventView::Output { id, origin: reads[i].0, line: reads[i].1->Line_0 }) by {
                if i > 0 {
                    assert(emitted(id, reads)[i] == tail[i - 1]);
                    assert(rest[i - 1] == reads[i]);
                }
            }
            if live_prefix(reads) < reads.len() {
                assert(emitted(id, reads).last() == tail.last());
            }
        } else {
            lemma_concluded_is_silent(next, rest);
            assert(emitted(id, reads) =~= seq![EventView::Exited { id }]);
        }
    } else {
        assert(emitted(id, reads) =~= Seq::<EventView>::empty());
    }
}

/// Stream fidelity: for each pipe, the lines of the `Output` events that
/// the sink sees are the lines read from that pipe, in the same order.
/// Nothing is said of how the two pipes interleave.
pub proof fn lemma_stream_fidelity(id: Seq<char>, reads: Seq<Read>, origin: StreamOrigin)
    ensures
        lines_seen(emitted(id, reads), origin) == lines_read(reads, origin),
    decreases reads.len(),
{
    if reads.len() > 0 {
        let rest = reads.drop_first();
        let acts = actions(fresh(id, 0), reads);
        let (next, action) = step(fresh(id, 0), reads[0].0, reads[0].1);
        assert(acts.drop_first() =~= actions(next, rest));
        if reads[0].1 is Line {
            lemma_stream_fidelity(id, rest, origin);
            let event = EventView::Output { id, origin: reads[0].0, line: reads[0].1->Line_0 };
            let events = emitted(id, reads);
            assert(events =~= seq![event] + emitted(id, rest));
            assert(events.drop_first() =~= emitted(id, rest));
        } else {
            lemma_concluded_is_silent(next, rest);
            let events = emitted(id, reads);
            assert(events =~= seq![EventView::Exited { id }]);
            assert(events.drop_first() =~= Seq::<EventView>::empty());
            assert(lines_seen(events.drop_first(), origin) =~= Seq::<Seq<char>>::empty());
            assert(lines_seen(events, origin) =~= Seq::<Seq<char>>::empty());
        }
    } else {
        assert(emitted(id, reads) =~= Seq::<EventView>::empty());
    }
}

} // verus!
