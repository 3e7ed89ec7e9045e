//! The order of messages: a message is equal to itself, and other messages
//! come in the order of their dates.
use std::cmp::Ordering;
use vstd::prelude::*;
use crate::types::{LocalTime, Message, MessageV};

verus! {

/// How two instants compare.
pub open spec fn date_order(a: LocalTime, b: LocalTime) -> Ordering {
    if a.before(b) {
        Ordering::Less
    } else if b.before(a) {
        Ordering::Greater
    } else {
        Ordering::Equal
    }
}

/// How two messages compare: the same message (by id) is equal, other
/// messages compare by date.
pub open spec fn message_order(a: MessageV, b: MessageV) -> Ordering {
    if a.id == b.id {
        Ordering::Equal
    } else {
        date_order(a.date, b.date)
    }
}

impl Message {
    /// Two messages are the same message when their ids are the same.
    pub fn same_message(&self, other: &Message) -> (r: bool)
        ensures
            r == (self@.id == other@.id),
    {
        crate::history::same_id(&self.id, &other.id)
    }

    /// The same message is equal; other messages compare by
    /// date. Every two messages compare.
    pub fn partial_cmp(&self, other: &Message) -> (r: Option<Ordering>)
        ensures
            r == Some(message_order(self@, other@)),
    {
        if self.same_message(other) {
            Some(Ordering::Equal)
        } else if self.date.is_before(&other.date) {
            Some(Ordering::Less)
        } else if other.date.is_before(&self.date) {
            Some(Ordering::Greater)
        } else {
            Some(Ordering::Equal)
        }
    }
}

/// A message is newer than another (as the history reads "new") exactly
/// when `partial_cmp` puts it after the other.
pub proof fn lemma_after_is_greater(a: MessageV, b: MessageV)
    ensures
        crate::history::msg_after(a, b) <==> message_order(a, b) == Ordering::Greater,
{
}

/// The order of messages is antisymmetric: `a` is after `b` exactly when
/// `b` is before `a`.
pub proof fn lemma_order_flips(a: MessageV, b: MessageV)
    ensures
        message_order(a, b) == Ordering::Greater <==> message_order(b, a) == Ordering::Less,
        message_order(a, b) == Ordering::Equal <==> message_order(b, a) == Ordering::Equal,
{
}

} // verus!
