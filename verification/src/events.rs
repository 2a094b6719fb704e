use vstd::prelude::*;
use vstd::string::*;

verus! {

/// Which of a child's two output pipes a line was read from.
#[derive(Clone, Copy, Debug, PartialEq, Eq, Structural)]
pub enum StreamOrigin {
    Stdout,
    Stderr,
}

/// An event for the external sink.
///
/// For one identifier the sink sees any number of `Output` events and then
/// exactly one `Exited`.
#[derive(Debug, PartialEq, Eq)]
pub enum ProcessEvent {
    /// One line of text that the process wrote to one of its pipes.
    Output { id: String, origin: StreamOrigin, line: String },
    /// The process's output has ended and its registry entry is gone.
    Exited { id: String },
}

/// The mathematical value of a `ProcessEvent`.
pub enum EventView {
    Output { id: Seq<char>, origin: StreamOrigin, line: Seq<char> },
    Exited { id: Seq<char> },
}

impl View for ProcessEvent {
    type V = EventView;

    open spec fn view(&self) -> EventView {
        match self {
            ProcessEvent::Output { id, origin, line } => EventView::Output {
                id: id@,
                origin: *origin,
                line: line@,
            },
            ProcessEvent::Exited { id } => EventView::Exited { id: id@ },
        }
    }
}

/// The name of the channel on which an event is published: an
/// event-specific prefix followed by the identifier.
pub open spec fn channel_of(event: EventView) -> Seq<char> {
    match event {
        EventView::Output { id, origin: StreamOrigin::Stdout, line } => "log-stdout-"@ + id,
        EventView::Output { id, origin: StreamOrigin::Stderr, line } => "log-stderr-"@ + id,
        EventView::Exited { id } => "process-exit-"@ + id,
    }
}

/// The text published with an event: the line itself, or the exit marker.
pub open spec fn payload_of(event: EventView) -> Seq<char> {
    match event {
        EventView::Output { id, origin, line } => line,
        EventView::Exited { id } => "exited"@,
    }
}

impl ProcessEvent {
    /// The identifier of the process that the event is about.
    pub fn id(&self) -> (res: &str)
        ensures
            res@ == (match self@ {
                EventView::Output { id, origin, line } => id,
                EventView::Exited { id } => id,
            }),
    {
        match self {
            ProcessEvent::Output { id, origin: _, line: _ } => id.as_str(),
            ProcessEvent::Exited { id } => id.as_str(),
        }
    }

    /// The name of the channel on which the sink publishes this event.
    pub fn channel(&self) -> (res: String)
        ensures
            res@ == channel_of(self@),
    {
        match self {
            ProcessEvent::Output { id, origin: StreamOrigin::Stdout, line: _ } => {
                String::from_str("log-stdout-").concat(id.as_str())
            },
            ProcessEvent::Output { id, origin: StreamOrigin::Stderr, line: _ } => {
                String::from_str("log-stderr-").concat(id.as_str())
            },
            ProcessEvent::Exited { id } => String::from_str("process-exit-").concat(id.as_str()),
        }
    }

    /// The text that the sink publishes with this event.
    pub fn payload(&self) -> (res: String)
        ensures
            res@ == payload_of(self@),
    {
        match self {
            ProcessEvent::Output { id: _, origin: _, line } => line.clone(),
            ProcessEvent::Exited { id: _ } => String::from_str("exited"),
        }
    }
}

/// Events of different kinds, or of different pipes, never share a channel,
/// whatever the identifiers are.
pub proof fn lemma_channels_apart(a: EventView, b: EventView)
    requires
        channel_of(a) == channel_of(b),
    ensures
        a is Exited <==> b is Exited,
        a is Output && b is Output ==> a->origin == b->origin,
{
    reveal_strlit("log-stdout-");
    reveal_strlit("log-stderr-");
    reveal_strlit("process-exit-");
    // The prefixes differ at their first character, or at their eighth.
    let id_a = match a {
        EventView::Output { id, origin, line } => id,
        EventView::Exited { id } => id,
    };
    let id_b = match b {
        EventView::Output { id, origin, line } => id,
        EventView::Exited { id } => id,
    };
    assert(("log-stdout-"@ + id_a)[0] == 'l' && ("log-stdout-"@ + id_a)[7] == 'o');
    assert(("log-stderr-"@ + id_a)[0] == 'l' && ("log-stderr-"@ + id_a)[7] == 'e');
    assert(("process-exit-"@ + id_a)[0] == 'p');
    assert(("log-stdout-"@ + id_b)[0] == 'l' && ("log-stdout-"@ + id_b)[7] == 'o');
    assert(("log-stderr-"@ + id_b)[0] == 'l' && ("log-stderr-"@ + id_b)[7] == 'e');
    assert(("process-exit-"@ + id_b)[0] == 'p');
}

} // verus!
