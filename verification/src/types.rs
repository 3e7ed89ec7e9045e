//! The data the client keeps about rooms, members, events and messages.
use vstd::prelude::*;
use crate::json::{Json, JsonV};

verus! {

/// The view of an optional string.
pub open spec fn opt_view(o: Option<String>) -> Option<Seq<char>> {
    match o {
        Some(s) => Some(s@),
        None => None,
    }
}

/// A room member.
pub struct Member {
    pub uid: String,
    pub alias: Option<String>,
    pub avatar: Option<String>,
}

pub struct MemberV {
    pub uid: Seq<char>,
    pub alias: Option<Seq<char>>,
    pub avatar: Option<Seq<char>>,
}

impl View for Member {
    type V = MemberV;

    open spec fn view(&self) -> MemberV {
        MemberV { uid: self.uid@, alias: opt_view(self.alias), avatar: opt_view(self.avatar) }
    }
}

impl Member {
    pub fn duplicate(&self) -> (r: Member)
        ensures
            r@ == self@,
    {
        Member { uid: self.uid.clone(), alias: self.alias.clone(), avatar: self.avatar.clone() }
    }
}

/// A room event that is not a message.
pub struct Event {
    pub room: String,
    pub sender: String,
    pub content: Json,
    pub stype: String,
    pub id: String,
    /// The event a redaction removes.
    pub redacts: Option<String>,
}

pub struct EventV {
    pub room: Seq<char>,
    pub sender: Seq<char>,
    pub content: JsonV,
    pub stype: Seq<char>,
    pub id: Seq<char>,
    pub redacts: Option<Seq<char>>,
}

impl View for Event {
    type V = EventV;

    open spec fn view(&self) -> EventV {
        EventV {
            room: self.room@,
            sender: self.sender@,
            content: self.content.view(),
            stype: self.stype@,
            id: self.id@,
            redacts: opt_view(self.redacts),
        }
    }
}

/// A point in time in the local time zone: seconds since the Unix epoch and
/// the nanoseconds within that second.
pub struct LocalTime {
    pub secs: i64,
    pub nanos: u32,
}

impl LocalTime {
    /// `self` is earlier than `other`.
    pub open spec fn before(self, other: LocalTime) -> bool {
        self.secs < other.secs || (self.secs == other.secs && self.nanos < other.nanos)
    }

    pub fn is_before(&self, other: &LocalTime) -> (r: bool)
        ensures
            r == self.before(*other),
    {
        self.secs < other.secs || (self.secs == other.secs && self.nanos < other.nanos)
    }
}

/// A room message, received or about to be sent.
pub struct Message {
    pub sender: String,
    pub mtype: String,
    pub body: String,
    pub date: LocalTime,
    pub room: String,
    pub thumb: Option<String>,
    pub url: Option<String>,
    /// The event id; for a message still to be sent, its transaction id.
    pub id: Option<String>,
    pub formatted_body: Option<String>,
    pub format: Option<String>,
    /// The users that have read up to this message, with the time they did.
    pub receipt: Vec<(String, i64)>,
    pub redacted: bool,
    /// The event this message replies to.
    pub in_reply_to: Option<String>,
    /// The event this message replaces.
    pub replace: Option<String>,
}

pub struct MessageV {
    pub sender: Seq<char>,
    pub mtype: Seq<char>,
    pub body: Seq<char>,
    pub date: LocalTime,
    pub room: Seq<char>,
    pub thumb: Option<Seq<char>>,
    pub url: Option<Seq<char>>,
    pub id: Option<Seq<char>>,
    pub formatted_body: Option<Seq<char>>,
    pub format: Option<Seq<char>>,
    pub receipt: Seq<(Seq<char>, i64)>,
    pub redacted: bool,
    pub in_reply_to: Option<Seq<char>>,
    pub replace: Option<Seq<char>>,
}

pub open spec fn receipt_view(r: Seq<(String, i64)>) -> Seq<(Seq<char>, i64)> {
    r.map_values(|p: (String, i64)| (p.0@, p.1))
}

impl View for Message {
    type V = MessageV;

    open spec fn view(&self) -> MessageV {
        MessageV {
            sender: self.sender@,
            mtype: self.mtype@,
            body: self.body@,
            date: self.date,
            room: self.room@,
            thumb: opt_view(self.thumb),
            url: opt_view(self.url),
            id: opt_view(self.id),
            formatted_body: opt_view(self.formatted_body),
            format: opt_view(self.format),
            receipt: receipt_view(self.receipt@),
            redacted: self.redacted,
            in_reply_to: opt_view(self.in_reply_to),
            replace: opt_view(self.replace),
        }
    }
}

fn copy_opt(o: &Option<String>) -> (r: Option<String>)
    ensures
        opt_view(r) == opt_view(*o),
{
    match o {
        Some(s) => Some(s.clone()),
        None => None,
    }
}

impl Message {
    /// A copy of the message.
    pub fn duplicate(&self) -> (r: Message)
        ensures
            r@ == self@,
    {
        let mut receipt: Vec<(String, i64)> = Vec::new();
        let mut i: usize = 0;
        while i < self.receipt.len()
            invariant
                i <= self.receipt@.len(),
                receipt_view(receipt@) == receipt_view(self.receipt@).take(i as int),
            decreases self.receipt@.len() - i,
        {
            let ghost before = receipt_view(receipt@);
            receipt.push((self.receipt[i].0.clone(), self.receipt[i].1));
            proof {
                assert(receipt_view(receipt@) =~= before.push((self.receipt@[i as int].0@, self.receipt@[i as int].1)));
                assert(receipt_view(self.receipt@).take(i + 1) =~= receipt_view(self.receipt@).take(i as int).push(
                    (self.receipt@[i as int].0@, self.receipt@[i as int].1),
                ));
            }
            i = i + 1;
        }
        proof {
            assert(receipt_view(self.receipt@).take(self.receipt@.len() as int) =~= receipt_view(self.receipt@));
        }
        Message {
            sender: self.sender.clone(),
            mtype: self.mtype.clone(),
            body: self.body.clone(),
            date: LocalTime { secs: self.date.secs, nanos: self.date.nanos },
            room: self.room.clone(),
            thumb: copy_opt(&self.thumb),
            url: copy_opt(&self.url),
            id: copy_opt(&self.id),
            formatted_body: copy_opt(&self.formatted_body),
            format: copy_opt(&self.format),
            receipt,
            redacted: self.redacted,
            in_reply_to: copy_opt(&self.in_reply_to),
            replace: copy_opt(&self.replace),
        }
    }
}

impl MessageV {
    /// Two messages are the same message when their ids are equal.
    pub open spec fn same(self, other: MessageV) -> bool {
        self.id == other.id
    }
}

/// A room as the client keeps it.
pub struct Room {
    pub id: String,
    pub name: Option<String>,
    pub avatar: Option<String>,
    pub alias: Option<String>,
    pub topic: Option<String>,
    pub direct: bool,
    pub notifications: i32,
    pub highlight: i32,
    pub fav: bool,
    pub left: bool,
    pub inv: bool,
    /// Who invited us, for an invitation.
    pub inv_sender: Option<Member>,
    pub messages: Vec<Message>,
    /// Members by user id, each id at most once.
    pub members: Vec<Member>,
    /// Power levels by user id.
    pub power_levels: Vec<(String, i32)>,
    /// Number of joined members (as the room directory reports it).
    pub n_members: i64,
}

pub struct RoomV {
    pub id: Seq<char>,
    pub name: Option<Seq<char>>,
    pub avatar: Option<Seq<char>>,
    pub alias: Option<Seq<char>>,
    pub topic: Option<Seq<char>>,
    pub direct: bool,
    pub notifications: i32,
    pub highlight: i32,
    pub fav: bool,
    pub left: bool,
    pub inv: bool,
    pub inv_sender: Option<MemberV>,
    pub messages: Seq<MessageV>,
    pub members: Seq<MemberV>,
    pub power_levels: Seq<(Seq<char>, i32)>,
    pub n_members: i64,
}

impl View for Room {
    type V = RoomV;

    open spec fn view(&self) -> RoomV {
        RoomV {
            id: self.id@,
            name: opt_view(self.name),
            avatar: opt_view(self.avatar),
            alias: opt_view(self.alias),
            topic: opt_view(self.topic),
            direct: self.direct,
            notifications: self.notifications,
            highlight: self.highlight,
            fav: self.fav,
            left: self.left,
            inv: self.inv,
            inv_sender: match self.inv_sender {
                Some(m) => Some(m@),
                None => None,
            },
            messages: self.messages@.map_values(|m: Message| m@),
            members: self.members@.map_values(|m: Member| m@),
            power_levels: self.power_levels@.map_values(|p: (String, i32)| (p.0@, p.1)),
            n_members: self.n_members,
        }
    }
}

impl Room {
    /// A room with an id and maybe a name, and nothing else yet.
    pub fn new(id: String, name: Option<String>) -> (r: Room)
        ensures
            r.id@ == id@,
            opt_view(r.name) == opt_view(name),
            r.avatar is None && r.alias is None && r.topic is None,
            !r.direct && !r.fav && !r.left && !r.inv,
            r.notifications == 0 && r.highlight == 0,
            r.inv_sender is None,
            r.messages@.len() == 0 && r.members@.len() == 0 && r.power_levels@.len() == 0,
            r.n_members == 0,
    {
        Room {
            id,
            name,
            avatar: None,
            alias: None,
            topic: None,
            direct: false,
            notifications: 0,
            highlight: 0,
            fav: false,
            left: false,
            inv: false,
            inv_sender: None,
            messages: Vec::new(),
            members: Vec::new(),
            power_levels: Vec::new(),
            n_members: 0,
        }
    }
}

/// Errors of the Matrix API layer that the library's logic produces.
#[derive(PartialEq, Eq, Structural)]
pub enum Error {
    /// The server's answer is not shaped as the protocol says.
    BackendError,
}

} // verus!
