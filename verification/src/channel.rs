//! The channels between the connection and the tasks that push events.
use vstd::prelude::*;

verus! {

/// What the server tells a task that pushes events.
///
/// `RefreshEvent` comes when the client asks for the stream again, which it
/// does after its reconnection time.  `CloseEvent` comes when the
/// connection is dropped or the client closes the event source.
#[derive(Clone, Copy, Debug, PartialEq, Eq, Structural)]
pub enum ControlEvent {
    RefreshEvent,
    CloseEvent,
}

/// `std::sync::mpsc::Sender`, the sending end of a channel.  Nothing is
/// known of what is in it.
#[verifier::external_type_specification]
#[verifier::external_body]
#[verifier::reject_recursive_types(T)]
pub struct ExSender<T>(std::sync::mpsc::Sender<T>);

/// The channel on which a task sends the text of an event to the client.
pub type PushChan = std::sync::mpsc::Sender<String>;

/// The channel on which the server sends control events to a task.
pub type ControlChan = std::sync::mpsc::Sender<ControlEvent>;

/// `std::sync::mpsc::Sender::send` on a control channel.  The call never
/// blocks.  Where the receiving end is gone the event is lost, and
/// nothing tells the sender.
#[verifier::external_body]
pub(crate) fn send_control(channel: &ControlChan, event: ControlEvent) {
    let _ = channel.send(event);
}

} // verus!
