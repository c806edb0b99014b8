//! The order in which the host carries out what the engine asks for.
//!
//! An agenda holds the actions that are still to be carried out. The host
//! takes them from the front, one at a time. When the connection has created
//! the offer or the answer that an action asked for, the host reports the
//! description, and what it entails is put at the front of the agenda: it
//! is carried out before anything that was already waiting.

use std::collections::VecDeque;
use vstd::prelude::*;

use crate::action::{views, Action, ActionView, SdpKind};
use crate::signal::{ServerMessage, ServerMessageView};

verus! {

/// The actions that are still to be carried out, first one first.
pub struct Agenda {
    queue: VecDeque<Action>,
}

impl View for Agenda {
    type V = Seq<ActionView>;

    closed spec fn view(&self) -> Seq<ActionView> {
        views(self.queue@)
    }
}

/// What the creation of a description of the given kind for `peer_id`
/// entails: the description is applied as the local one, then sent to the
/// client.
pub open spec fn description_created_actions(peer_id: u32, sdp_type: SdpKind, sdp: String) -> Seq<
    ActionView,
> {
    seq![
        ActionView::SetLocalDescription { peer_id, sdp_type, sdp },
        ActionView::Send {
            peer_id,
            message: match sdp_type {
                SdpKind::Offer => ServerMessageView::Offer(sdp),
                SdpKind::Answer => ServerMessageView::Answer(sdp),
            },
        },
    ]
}

impl Agenda {
    /// An agenda that holds `actions`, in their order.
    pub fn new(actions: Vec<Action>) -> (agenda: Agenda)
        ensures
            agenda@ == views(actions@),
    {
        let mut rest = actions;
        let mut queue: VecDeque<Action> = VecDeque::new();
        while rest.len() > 0
            invariant
                rest@ + queue@ == actions@,
            decreases rest@.len(),
        {
            let last = rest.pop();
            queue.push_front(last.unwrap());
        }
        Agenda { queue }
    }

    /// Whether nothing is left to carry out.
    pub fn is_empty(&self) -> (empty: bool)
        ensures
            empty == (self@.len() == 0),
    {
        self.queue.len() == 0
    }

    /// Takes the action that is to be carried out next.
    pub fn next(&mut self) -> (action: Option<Action>)
        ensures
            old(self)@.len() == 0 ==> action is None && final(self)@ == old(self)@,
            old(self)@.len() > 0 ==> {
                &&& action is Some
                &&& action.unwrap()@ == old(self)@[0]
                &&& final(self)@ == old(self)@.drop_first()
            },
    {
        self.queue.pop_front()
    }

    /// Reports the description that the connection of `peer_id` has
    /// created. It is applied as the local description and sent to the
    /// client before anything else that is waiting.
    fn description_created(&mut self, peer_id: u32, sdp_type: SdpKind, sdp: String)
        ensures
            final(self)@ == description_created_actions(peer_id, sdp_type, sdp) + old(self)@,
    {
        let copy = sdp.clone();
        let message = match sdp_type {
            SdpKind::Offer => ServerMessage::Offer(copy),
            SdpKind::Answer => ServerMessage::Answer(copy),
        };
        self.queue.push_front(Action::Send { peer_id, message });
        self.queue.push_front(Action::SetLocalDescription { peer_id, sdp_type, sdp });
    }

    /// Reports the offer that the connection of `peer_id` has created.
    pub fn offer_created(&mut self, peer_id: u32, sdp: String)
        ensures
            final(self)@ == description_created_actions(peer_id, SdpKind::Offer, sdp) + old(
                self,
            )@,
    {
        self.description_created(peer_id, SdpKind::Offer, sdp)
    }

    /// Reports the answer that the connection of `peer_id` has created.
    pub fn answer_created(&mut self, peer_id: u32, sdp: String)
        ensures
            final(self)@ == description_created_actions(peer_id, SdpKind::Answer, sdp) + old(
                self,
            )@,
    {
        self.description_created(peer_id, SdpKind::Answer, sdp)
    }
}

} // verus!
