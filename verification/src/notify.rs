//! The desktop notifications of new messages: their text, and what a click
//! on one opens.
use vstd::prelude::*;
use vstd::string::StringSliceAdditionalSpecFns;
use crate::appop::{AppModel, find_room, or_empty, room_index};
use crate::text::{concat, replace, replace_all};
use crate::types::Message;

verus! {

/// The summary of the notification of a message of room `room`, before the
/// sender's name goes in place of `{name}`: for a room the client does not
/// know, the room's id.
pub open spec fn notification_template(m: AppModel, room: Seq<char>) -> Seq<char> {
    match room_index(m.rooms@, room) {
        None => room,
        Some(i) => if m.rooms@[i].direct {
            "{name} (direct message)"@
        } else {
            "{name} ("@ + or_empty(m.rooms@[i].name) + ")"@
        },
    }
}

/// The body of a notification: the message's body cut to its first 80 bytes.
pub open spec fn notification_body(body: Seq<char>) -> Seq<u8> {
    let bytes = vstd::utf8::encode_utf8(body);
    if bytes.len() > 80 {
        bytes.take(80)
    } else {
        bytes
    }
}

fn cut_body(body: &str) -> (r: String)
    requires
        vstd::utf8::encode_utf8(body@).len() > 80 ==> vstd::utf8::is_char_boundary(vstd::utf8::encode_utf8(body@), 80),
    ensures
        vstd::utf8::encode_utf8(r@) == notification_body(body@),
{
    let n = body.as_bytes().len();
    assert(n == body.spec_bytes().len());
    if n <= 80 {
        let r = body.to_owned();
        assert(r@ == body@);
        assert(vstd::utf8::encode_utf8(r@) == body.spec_bytes());
        r
    } else {
        let (head, _) = body.split_at(80);
        let r = head.to_owned();
        proof {
            assert(head.spec_bytes() =~= body.spec_bytes().subrange(0, 80));
            assert(r@ == head@);
            assert(vstd::utf8::encode_utf8(r@) == head.spec_bytes());
            assert(body.spec_bytes().subrange(0, 80) =~= body.spec_bytes().take(80));
        }
        r
    }
}

impl AppModel {
    /// The summary and the body of the notification of `msg`, once
    /// the name of its sender is known. The body is cut at 80 bytes, which
    /// must end a character where the body is longer (else the client stops).
    pub fn notification(&self, msg: &Message, name: &str) -> (r: (String, String))
        requires
            vstd::utf8::encode_utf8(msg.body@).len() > 80 ==> vstd::utf8::is_char_boundary(
                vstd::utf8::encode_utf8(msg.body@),
                80,
            ),
        ensures
            r.0@ == replace_all(notification_template(*self, msg.room@), "{name}"@, name@),
            vstd::utf8::encode_utf8(r.1@) == notification_body(msg.body@),
    {
        let template = match find_room(&self.rooms, msg.room.as_str()) {
            None => msg.room.clone(),
            Some(i) => {
                if self.rooms[i].direct {
                    "{name} (direct message)".to_owned()
                } else {
                    let name = match &self.rooms[i].name {
                        Some(n) => n.as_str(),
                        None => {
                            proof {
                                reveal_strlit("");
                            }
                            ""
                        },
                    };
                    let a = concat("{name} (", name);
                    proof {
                        reveal_strlit("");
                        assert(""@ =~= Seq::<char>::empty());
                    }
                    concat(a.as_str(), ")")
                }
            },
        };
        proof {
            reveal_strlit("{name}");
        }
        let summary = replace(template.as_str(), "{name}", name);
        (summary, cut_body(msg.body.as_str()))
    }

    /// The room to open, when the client knows the
    /// message's room.
    pub fn notification_clicked(&self, msg: &Message) -> (r: Option<String>)
        ensures
            match room_index(self.rooms@, msg.room@) {
                Some(i) => r matches Some(id) && id@ == self.rooms@[i].id@,
                None => r is None,
            },
    {
        match find_room(&self.rooms, msg.room.as_str()) {
            Some(i) => Some(self.rooms[i].id.clone()),
            None => None,
        }
    }
}

/// The body of a notification is the beginning of the message's body, 80
/// bytes at most.
pub proof fn lemma_notification_body_prefix(body: Seq<char>)
    ensures
        notification_body(body).len() <= 80,
        notification_body(body) == vstd::utf8::encode_utf8(body).take(notification_body(body).len() as int),
{
    let b = vstd::utf8::encode_utf8(body);
    if b.len() <= 80 {
        assert(b.take(b.len() as int) =~= b);
    }
}

} // verus!
