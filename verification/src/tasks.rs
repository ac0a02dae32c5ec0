//! The decisions of the two kinds of task that stand behind a stream of
//! events: the task that pushes events to one client, and the task that
//! owns the state and tells the listeners of every change.  The tasks
//! themselves wait on channels; what they do with what arrives is
//! decided here.
use crate::channel::ControlEvent;
use crate::table::Table;
use crate::text::{decimal, decimal_string};
use vstd::prelude::*;
use vstd::string::*;

verus! {

/// One event as it is pushed: the time after which the client asks
/// again, in milliseconds, and the data.
pub open spec fn frame_text(retry: u64, payload: Seq<char>) -> Seq<char> {
    "retry: "@ + decimal(retry as nat) + "\ndata: "@ + payload + "\n\n"@
}

/// The text of one event.
pub fn push_frame(retry: u64, payload: &str) -> (frame: String)
    ensures
        frame@ == frame_text(retry, payload@),
{
    let mut frame = "retry: ".to_owned();
    frame.append(decimal_string(retry).as_str());
    frame.append("\ndata: ");
    frame.append(payload);
    frame.append("\n\n");
    frame
}

/// What a task that pushes events knows.
pub struct PushTask {
    /// The name under which the task listens to the state.
    pub key: String,
    /// The reconnection time that goes with every event.
    pub retry: u64,
    /// The data of the last event.
    pub last: String,
    /// Whether the task still runs.
    pub open: bool,
}

/// What arrives at a task that pushes events.
pub enum PushInput {
    /// The state has changed; this is the data to push.
    Notified(String),
    /// The server has sent a control event.
    Control(ControlEvent),
}

/// What a task that pushes events does next.
pub enum PushOutput {
    /// Send this text to the client.
    Frame(String),
    /// Stop listening under this name, and end.
    Unregister(String),
    /// Nothing: the task has ended.
    Idle,
}

/// What a task does next, as a value of the mathematics.
pub enum PushOutputView {
    Frame(Seq<char>),
    Unregister(Seq<char>),
    Idle,
}

impl View for PushOutput {
    type V = PushOutputView;

    open spec fn view(&self) -> PushOutputView {
        match self {
            PushOutput::Frame(text) => PushOutputView::Frame(text@),
            PushOutput::Unregister(key) => PushOutputView::Unregister(key@),
            PushOutput::Idle => PushOutputView::Idle,
        }
    }
}

/// What arrives at a task, as a value of the mathematics.
pub enum PushInputView {
    Notified(Seq<char>),
    Control(ControlEvent),
}

impl View for PushInput {
    type V = PushInputView;

    open spec fn view(&self) -> PushInputView {
        match self {
            PushInput::Notified(data) => PushInputView::Notified(data@),
            PushInput::Control(event) => PushInputView::Control(*event),
        }
    }
}

/// The data that the task pushed last, after `input`.
pub open spec fn push_last(last: Seq<char>, open: bool, input: PushInputView) -> Seq<char> {
    match input {
        PushInputView::Notified(data) => if open {
            data
        } else {
            last
        },
        PushInputView::Control(_) => last,
    }
}

/// Whether the task still runs after `input`.
pub open spec fn push_open(open: bool, input: PushInputView) -> bool {
    open && !(input matches PushInputView::Control(ControlEvent::CloseEvent))
}

/// What the task does on `input`.  A change of the state is pushed.  A
/// refresh pushes the last event again.  A close ends the task, which
/// stops listening.  A task that has ended does nothing.
pub open spec fn push_output(key: Seq<char>, retry: u64, last: Seq<char>, open: bool, input: PushInputView) -> PushOutputView {
    if !open {
        PushOutputView::Idle
    } else {
        match input {
            PushInputView::Notified(data) => PushOutputView::Frame(frame_text(retry, data)),
            PushInputView::Control(ControlEvent::RefreshEvent) => PushOutputView::Frame(frame_text(retry, last)),
            PushInputView::Control(ControlEvent::CloseEvent) => PushOutputView::Unregister(key),
        }
    }
}

/// One step of a task that pushes events.
pub fn push_step(task: &mut PushTask, input: PushInput) -> (output: PushOutput)
    ensures
        output@ == push_output(old(task).key@, old(task).retry, old(task).last@, old(task).open, input@),
        final(task).key == old(task).key,
        final(task).retry == old(task).retry,
        final(task).last@ == push_last(old(task).last@, old(task).open, input@),
        final(task).open == push_open(old(task).open, input@),
{
    if !task.open {
        return PushOutput::Idle;
    }
    match input {
        PushInput::Notified(data) => {
            let frame = push_frame(task.retry, data.as_str());
            task.last = data;
            PushOutput::Frame(frame)
        },
        PushInput::Control(ControlEvent::RefreshEvent) => {
            PushOutput::Frame(push_frame(task.retry, task.last.as_str()))
        },
        PushInput::Control(ControlEvent::CloseEvent) => {
            task.open = false;
            PushOutput::Unregister(task.key.clone())
        },
    }
}

/// The data of the events of the uptime stream: the time in seconds, or
/// in whole minutes.
pub open spec fn uptime_data(seconds: bool, time: u64) -> Seq<char> {
    if seconds {
        decimal(time as nat)
    } else {
        decimal((time / 60) as nat)
    }
}

/// The data of an event of the uptime stream.
pub fn uptime_payload(seconds: bool, time: u64) -> (data: String)
    ensures
        data@ == uptime_data(seconds, time),
{
    if seconds {
        decimal_string(time)
    } else {
        decimal_string(time / 60)
    }
}

/// What is sent to the task that owns the state.
pub enum StateMesg<C> {
    /// Tell this channel of every change, under this name.
    AddListener(String, C),
    /// Stop telling the channel under this name.
    RemoveListener(String),
    /// End the task.
    Shutdown,
}

/// What arrives at the task that owns the state.
pub enum StateInput<C> {
    /// The timer has fired.
    Tick,
    Mesg(StateMesg<C>),
}

/// What the task that owns the state does next.
#[derive(Clone, Copy, Debug, PartialEq, Eq, Structural)]
pub enum StateOutput {
    /// Send this time to every listener.
    Notify(u64),
    /// Nothing to send.
    Wait,
    /// End the task.
    Stop,
}

/// The state: the time, and who listens.
pub struct StateTask<C> {
    pub time: u64,
    pub listeners: Table<C>,
}

/// The step can be taken: the time can still grow, and a new listener
/// comes under a name that is free.
pub open spec fn state_step_possible<C>(task: &StateTask<C>, input: StateInput<C>) -> bool {
    match input {
        StateInput::Tick => task.time < u64::MAX,
        StateInput::Mesg(StateMesg::AddListener(key, _)) => !task.listeners.has(key@),
        _ => true,
    }
}

/// One step of the task that owns the state.  A tick of the timer moves
/// the time on by one, and every listener is to be told.  A listener is
/// added at the end or removed; the others keep their order.  A shutdown
/// ends the task.
pub fn state_step<C>(task: &mut StateTask<C>, input: StateInput<C>) -> (output: StateOutput)
    requires
        state_step_possible(old(task), input),
    ensures
        final(task).listeners.wf(),
        match input {
            StateInput::Tick => {
                &&& output == StateOutput::Notify((old(task).time + 1) as u64)
                &&& final(task).time == old(task).time + 1
                &&& final(task).listeners == old(task).listeners
            },
            StateInput::Mesg(StateMesg::AddListener(key, channel)) => {
                &&& output == StateOutput::Wait
                &&& final(task).time == old(task).time
                &&& final(task).listeners.keys() == old(task).listeners.keys().push(key@)
                &&& final(task).listeners.values() == old(task).listeners.values().push(channel)
            },
            StateInput::Mesg(StateMesg::RemoveListener(key)) => {
                &&& output == StateOutput::Wait
                &&& final(task).time == old(task).time
                &&& !final(task).listeners.has(key@)
                &&& forall|other: Seq<char>|
                    other != key@ ==> (final(task).listeners.has(other) <==> old(task).listeners.has(other))
                &&& !old(task).listeners.has(key@) ==> final(task).listeners.keys() == old(task).listeners.keys() && final(task).listeners.values() == old(task).listeners.values()
                &&& old(task).listeners.has(key@) ==> final(task).listeners.keys() == old(task).listeners.keys().remove(old(task).listeners.keys().index_of(key@)) && final(task).listeners.values() == old(task).listeners.values().remove(
                    old(task).listeners.keys().index_of(key@),
                )
            },
            StateInput::Mesg(StateMesg::Shutdown) => {
                &&& output == StateOutput::Stop
                &&& final(task).time == old(task).time
                &&& final(task).listeners == old(task).listeners
            },
        },
{
    proof {
        use_type_invariant(&task.listeners);
        task.listeners.lemma_wf();
    }
    match input {
        StateInput::Tick => {
            task.time = task.time + 1;
            StateOutput::Notify(task.time)
        },
        StateInput::Mesg(StateMesg::AddListener(key, channel)) => {
            task.listeners.insert(key, channel);
            StateOutput::Wait
        },
        StateInput::Mesg(StateMesg::RemoveListener(key)) => {
            let ghost before = task.listeners;
            task.listeners.remove(key.as_str());
            proof {
                let after = task.listeners;
                let k = key@;
                assert forall|other: Seq<char>| other != k implies (after.has(other) <==> before.has(other)) by {
                    if before.has(k) {
                        let gone = before.keys().index_of(k);
                        if after.has(other) {
                            let j = after.keys().index_of(other);
                            let j2 = if j < gone { j } else { j + 1 };
                            assert(before.keys()[j2] == other);
                        }
                        if before.has(other) {
                            let j = before.keys().index_of(other);
                            let j2 = if j < gone { j } else { j - 1 };
                            assert(after.keys()[j2] == other);
                        }
                    }
                }
            }
            StateOutput::Wait
        },
        StateInput::Mesg(StateMesg::Shutdown) => StateOutput::Stop,
    }
}

} // verus!
