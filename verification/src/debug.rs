//! Diagnostic messages on their way to the debug pane: a queue that the
//! main loop owns, fills from where it likes and drains once per frame.

use vstd::prelude::*;
use vstd::string::*;

verus! {

/// Messages not yet shown, oldest first.
pub struct DebugQueue {
    pub messages: Vec<String>,
}

impl View for DebugQueue {
    type V = Seq<Seq<char>>;

    open spec fn view(&self) -> Seq<Seq<char>> {
        self.messages.deep_view()
    }
}

/// An empty queue.
pub fn init_debug() -> (queue: DebugQueue)
    ensures
        queue@ == Seq::<Seq<char>>::empty(),
{
    let queue = DebugQueue { messages: Vec::new() };
    assert(queue@ =~= Seq::<Seq<char>>::empty());
    queue
}

/// Puts a message at the end of the queue.
pub fn debug_log(queue: &mut DebugQueue, message: &str)
    ensures
        final(queue)@ == old(queue)@.push(message@),
{
    let ghost before = queue@;
    queue.messages.push(String::from_str(message));
    assert(queue@ =~= before.push(message@));
}

impl DebugQueue {
    /// Takes the oldest message, if there is one. It never waits.
    pub fn try_recv(&mut self) -> (message: Option<String>)
        ensures
            old(self)@.len() == 0 ==> message is None && final(self)@ == old(self)@,
            old(self)@.len() > 0 ==> message is Some && message->Some_0@ == old(self)@[0],
            old(self)@.len() > 0 ==> final(self)@ == old(self)@.drop_first(),
    {
        if self.messages.len() == 0 {
            None
        } else {
            let ghost before = self@;
            let message = self.messages.remove(0);
            assert(self@ =~= before.drop_first());
            assert(message@ == before[0]);
            Some(message)
        }
    }
}

} // verus!
