//! The history of the active room as the window lists it: which messages it
//! holds, in which order the rows come, and which rows carry a header with
//! the sender's name.
use vstd::prelude::*;
use crate::appop::{AppModel, or_empty, room_index};
use crate::outbox::{RowType, UiMessage, spec_ui_message};
use crate::types::{LocalTime, Message, opt_view};

verus! {

/// The mathematical value of a [`UiMessage`].
pub struct UiMessageV {
    pub id: Seq<char>,
    pub sender: Seq<char>,
    pub sender_name: Option<Seq<char>>,
    pub mtype: RowType,
    pub body: Seq<char>,
    pub date: LocalTime,
    pub thumb: Option<Seq<char>>,
    pub url: Option<Seq<char>>,
    pub formatted_body: Option<Seq<char>>,
    pub format: Option<Seq<char>>,
    pub highlights: Seq<Seq<char>>,
}

impl View for UiMessage {
    type V = UiMessageV;

    open spec fn view(&self) -> UiMessageV {
        UiMessageV {
            id: self.id@,
            sender: self.sender@,
            sender_name: opt_view(self.sender_name),
            mtype: self.mtype,
            body: self.body@,
            date: self.date,
            thumb: opt_view(self.thumb),
            url: opt_view(self.url),
            formatted_body: opt_view(self.formatted_body),
            format: opt_view(self.format),
            highlights: self.highlights@.map_values(|s: String| s@),
        }
    }
}

fn copy_opt(o: &Option<String>) -> (r: Option<String>)
    ensures
        opt_view(r) == opt_view(*o),
{
    match o {
        Some(s) => Some(s.clone()),
        None => None,
    }
}

fn copy_row_type(t: &RowType) -> (r: RowType)
    ensures
        r == *t,
{
    match t {
        RowType::Message => RowType::Message,
        RowType::Emote => RowType::Emote,
        RowType::Image => RowType::Image,
        RowType::Sticker => RowType::Sticker,
        RowType::Audio => RowType::Audio,
        RowType::Video => RowType::Video,
        RowType::File => RowType::File,
        RowType::Mention => RowType::Mention,
    }
}

impl UiMessage {
    /// A copy of the message.
    pub fn duplicate(&self) -> (r: UiMessage)
        ensures
            r@ == self@,
    {
        let mut highlights: Vec<String> = Vec::new();
        let mut i: usize = 0;
        while i < self.highlights.len()
            invariant
                i <= self.highlights@.len(),
                highlights@.map_values(|s: String| s@) == self.highlights@.take(i as int).map_values(|s: String| s@),
            decreases self.highlights@.len() - i,
        {
            let ghost before = highlights@;
            let c = self.highlights[i].clone();
            highlights.push(c);
            proof {
                assert(highlights@ == before.push(c));
                assert(self.highlights@.take(i + 1) =~= self.highlights@.take(i as int).push(self.highlights@[i as int]));
                assert(highlights@.map_values(|s: String| s@) =~= before.map_values(|s: String| s@).push(c@));
                assert(self.highlights@.take(i + 1).map_values(|s: String| s@) =~= self.highlights@.take(i as int).map_values(
                    |s: String| s@,
                ).push(self.highlights@[i as int]@));
            }
            i = i + 1;
        }
        proof {
            assert(self.highlights@.take(self.highlights@.len() as int) =~= self.highlights@);
        }
        UiMessage {
            id: self.id.clone(),
            sender: self.sender.clone(),
            sender_name: copy_opt(&self.sender_name),
            mtype: copy_row_type(&self.mtype),
            body: self.body.clone(),
            date: LocalTime { secs: self.date.secs, nanos: self.date.nanos },
            thumb: copy_opt(&self.thumb),
            url: copy_opt(&self.url),
            formatted_body: copy_opt(&self.formatted_body),
            format: copy_opt(&self.format),
            highlights,
        }
    }
}

/// A row of the list: a message, with or without the header that names
/// its sender.
pub struct HistoryRow {
    pub msg: UiMessage,
    pub header: bool,
}

/// The history of the active room.
pub struct RoomHistory {
    /// The messages, in the order the history took them in.
    pub rows: Vec<UiMessage>,
    /// The rows of the list, top to bottom.
    pub list: Vec<HistoryRow>,
}

pub struct RoomHistoryV {
    pub rows: Seq<UiMessageV>,
    pub list: Seq<(UiMessageV, bool)>,
}

impl View for RoomHistory {
    type V = RoomHistoryV;

    open spec fn view(&self) -> RoomHistoryV {
        RoomHistoryV {
            rows: self.rows@.map_values(|m: UiMessage| m@),
            list: self.list@.map_values(|r: HistoryRow| (r.msg@, r.header)),
        }
    }
}

/// A row shows a header unless it is an emote or `prev` is from the same sender.
pub open spec fn wants_header(item: UiMessageV, prev: Option<UiMessageV>) -> bool {
    item.mtype != RowType::Emote && !(prev matches Some(p) && p.sender == item.sender)
}

/// Loading a new history: the last message of `data` is taken first, with a
/// header unless the one now last in `data` prevents it; it goes after the
/// messages taken in and on top of the list.
pub open spec fn fed_create(h: RoomHistoryV, data: Seq<UiMessageV>) -> RoomHistoryV
    decreases data.len(),
{
    if data.len() == 0 {
        h
    } else {
        let item = data.last();
        let rest = data.drop_last();
        let prev = if rest.len() > 0 { Some(rest.last()) } else { None };
        fed_create(RoomHistoryV { rows: h.rows.push(item), list: seq![(item, wants_header(item, prev))] + h.list }, rest)
    }
}

/// Loading into an existing history: as for a new one, except that the header depends on
/// the message taken in last.
pub open spec fn fed_update(h: RoomHistoryV, data: Seq<UiMessageV>) -> RoomHistoryV
    decreases data.len(),
{
    if data.len() == 0 {
        h
    } else {
        let item = data.last();
        let prev = if h.rows.len() > 0 { Some(h.rows.last()) } else { None };
        fed_update(RoomHistoryV { rows: h.rows.push(item), list: seq![(item, wants_header(item, prev))] + h.list }, data.drop_last())
    }
}

/// The position of the last message of `messages` with id `id`.
pub open spec fn last_with_id(messages: Seq<UiMessageV>, id: Seq<char>) -> Option<int>
    decreases messages.len(),
{
    if messages.len() == 0 {
        None
    } else if messages.last().id == id {
        Some(messages.len() - 1)
    } else {
        last_with_id(messages.drop_last(), id)
    }
}

/// Updating a history, the start: where the history's last message is among
/// `messages`, the messages before it are to load, nearest first; else the
/// history empties and all of `messages` are to load.
pub open spec fn update_start(h: RoomHistoryV, messages: Seq<UiMessageV>) -> (RoomHistoryV, Seq<UiMessageV>) {
    let found = if h.rows.len() > 0 { last_with_id(messages, h.rows.last().id) } else { None };
    match found {
        Some(j) => (h, messages.take(j).reverse()),
        None => (RoomHistoryV { rows: Seq::empty(), list: Seq::empty() }, messages),
    }
}

proof fn lemma_last_with_id_range(messages: Seq<UiMessageV>, id: Seq<char>)
    ensures
        last_with_id(messages, id) matches Some(j) ==> 0 <= j < messages.len(),
    decreases messages.len(),
{
    if messages.len() > 0 {
        lemma_last_with_id_range(messages.drop_last(), id);
    }
}

fn last_id_position(messages: &Vec<UiMessage>, id: &str) -> (r: Option<usize>)
    ensures
        match last_with_id(messages@.map_values(|m: UiMessage| m@), id@) {
            Some(j) => r == Some(j as usize),
            None => r is None,
        },
{
    let ghost v = messages@.map_values(|m: UiMessage| m@);
    let mut i: usize = messages.len();
    proof {
        assert(v.take(i as int) =~= v);
    }
    while i > 0
        invariant
            v == messages@.map_values(|m: UiMessage| m@),
            i <= messages@.len(),
            last_with_id(v, id@) == last_with_id(v.take(i as int), id@),
        decreases i,
    {
        proof {
            assert(v.take(i as int).drop_last() =~= v.take(i - 1));
            assert(v.take(i as int).last() == messages@[i - 1]@);
        }
        if crate::json::str_eq(messages[i - 1].id.as_str(), id) {
            return Some(i - 1);
        }
        i = i - 1;
    }
    None
}

impl RoomHistory {
    /// An empty history.
    pub fn new() -> (r: RoomHistory)
        ensures
            r@.rows.len() == 0 && r@.list.len() == 0,
    {
        RoomHistory { rows: Vec::new(), list: Vec::new() }
    }

    /// Takes in `messages`, the last first (see [`fed_create`]).
    pub fn create(&mut self, messages: Vec<UiMessage>)
        ensures
            final(self)@ == fed_create(old(self)@, messages@.map_values(|m: UiMessage| m@)),
    {
        let ghost goal = fed_create(self@, messages@.map_values(|m: UiMessage| m@));
        let mut data = messages;
        while data.len() > 0
            invariant
                fed_create(self@, data@.map_values(|m: UiMessage| m@)) == goal,
            decreases data@.len(),
        {
            let ghost d = data@.map_values(|m: UiMessage| m@);
            let item = data.pop().unwrap();
            proof {
                assert(data@.map_values(|m: UiMessage| m@) =~= d.drop_last());
            }
            let header = item.mtype != RowType::Emote && !(data.len() > 0 && crate::json::str_eq(
                data[data.len() - 1].sender.as_str(),
                item.sender.as_str(),
            ));
            let copy = item.duplicate();
            let ghost before = self@;
            self.rows.push(item);
            self.list.insert(0, HistoryRow { msg: copy, header });
            proof {
                assert(self@.rows =~= before.rows.push(d.last()));
                assert(self@.list =~= seq![(d.last(), header)] + before.list);
            }
        }
        proof {
            assert(data@.map_values(|m: UiMessage| m@) =~= Seq::<UiMessageV>::empty());
        }
    }

    fn feed_update(&mut self, messages: Vec<UiMessage>)
        ensures
            final(self)@ == fed_update(old(self)@, messages@.map_values(|m: UiMessage| m@)),
    {
        let ghost goal = fed_update(self@, messages@.map_values(|m: UiMessage| m@));
        let mut data = messages;
        while data.len() > 0
            invariant
                fed_update(self@, data@.map_values(|m: UiMessage| m@)) == goal,
            decreases data@.len(),
        {
            let ghost d = data@.map_values(|m: UiMessage| m@);
            let item = data.pop().unwrap();
            proof {
                assert(data@.map_values(|m: UiMessage| m@) =~= d.drop_last());
            }
            let n = self.rows.len();
            let header = item.mtype != RowType::Emote && !(n > 0 && crate::json::str_eq(
                self.rows[n - 1].sender.as_str(),
                item.sender.as_str(),
            ));
            let copy = item.duplicate();
            let ghost before = self@;
            self.rows.push(item);
            self.list.insert(0, HistoryRow { msg: copy, header });
            proof {
                assert(self@.rows =~= before.rows.push(d.last()));
                assert(self@.list =~= seq![(d.last(), header)] + before.list);
            }
        }
        proof {
            assert(data@.map_values(|m: UiMessage| m@) =~= Seq::<UiMessageV>::empty());
        }
    }

    /// Where the history's last message is among `messages`, the
    /// ones before it are added; else the history starts over with all of
    /// them (see [`update_start`]).
    pub fn update(&mut self, messages: Vec<UiMessage>)
        ensures
            ({
                let (h, data) = update_start(old(self)@, messages@.map_values(|m: UiMessage| m@));
                final(self)@ == fed_update(h, data)
            }),
    {
        let ghost v = messages@.map_values(|m: UiMessage| m@);
        let n = self.rows.len();
        let found = if n > 0 {
            last_id_position(&messages, self.rows[n - 1].id.as_str())
        } else {
            None
        };
        match found {
            Some(j) => {
                proof {
                    lemma_last_with_id_range(v, self@.rows.last().id);
                    assert(self@.rows.last().id == self.rows@[n - 1].id@);
                }
                let mut tmp = messages;
                tmp.truncate(j);
                let mut data: Vec<UiMessage> = Vec::new();
                proof {
                    assert(tmp@.map_values(|m: UiMessage| m@) =~= v.take(j as int));
                }
                while tmp.len() > 0
                    invariant
                        j <= v.len(),
                        tmp@.len() <= j,
                        tmp@.map_values(|m: UiMessage| m@) == v.take(tmp@.len() as int),
                        data@.map_values(|m: UiMessage| m@) == v.subrange(tmp@.len() as int, j as int).reverse(),
                    decreases tmp@.len(),
                {
                    let ghost t = tmp@.map_values(|m: UiMessage| m@);
                    let ghost old_len = tmp@.len() as int;
                    let ghost old_data = data@.map_values(|m: UiMessage| m@);
                    let x = tmp.pop().unwrap();
                    proof {
                        assert(t[old_len - 1] == x@);
                        assert(t[old_len - 1] == v[old_len - 1]);
                    }
                    data.push(x);
                    proof {
                        assert(tmp@.map_values(|m: UiMessage| m@) =~= v.take(tmp@.len() as int));
                        assert(data@.map_values(|m: UiMessage| m@) =~= old_data.push(v[old_len - 1]));
                        assert(v.subrange(old_len - 1, j as int).reverse() =~= v.subrange(old_len, j as int).reverse().push(v[old_len - 1]));
                    }
                }
                proof {
                    assert(v.subrange(0, j as int) =~= v.take(j as int));
                }
                self.feed_update(data);
            },
            None => {
                self.rows = Vec::new();
                self.list = Vec::new();
                proof {
                    assert(self@.rows =~= Seq::<UiMessageV>::empty());
                    assert(self@.list =~= Seq::<(UiMessageV, bool)>::empty());
                }
                self.feed_update(messages);
            },
        }
    }

    /// A new message goes at the bottom, with a header
    /// unless it is an emote or the last message taken in is from the same
    /// sender.
    pub fn add_new_message(&mut self, item: UiMessage)
        ensures
            final(self)@ == (RoomHistoryV {
                rows: old(self)@.rows.push(item@),
                list: old(self)@.list.push((item@, wants_header(
                    item@,
                    if old(self)@.rows.len() > 0 { Some(old(self)@.rows.last()) } else { None },
                ))),
            }),
    {
        let n = self.rows.len();
        let header = item.mtype != RowType::Emote && !(n > 0 && crate::json::str_eq(
            self.rows[n - 1].sender.as_str(),
            item.sender.as_str(),
        ));
        let copy = item.duplicate();
        self.rows.push(item);
        self.list.push(HistoryRow { msg: copy, header });
        proof {
            assert(self@.rows =~= old(self)@.rows.push(copy@));
            assert(self@.list =~= old(self)@.list.push((copy@, header)));
        }
    }

    /// An older message goes on top, always with a header.
    pub fn add_old_message(&mut self, item: UiMessage)
        ensures
            final(self)@ == (RoomHistoryV {
                rows: seq![item@] + old(self)@.rows,
                list: seq![(item@, true)] + old(self)@.list,
            }),
    {
        let copy = item.duplicate();
        self.rows.insert(0, item);
        self.list.insert(0, HistoryRow { msg: copy, header: true });
        proof {
            assert(self@.rows =~= seq![copy@] + old(self)@.rows);
            assert(self@.list =~= seq![(copy@, true)] + old(self)@.list);
        }
    }
}

/// Where a message goes in the history of the active room.
pub struct HistoryInsert {
    pub msg: UiMessage,
    /// It goes on top (an older message) rather than at the bottom.
    pub top: bool,
    /// A "New Messages" divider comes before it.
    pub divider: bool,
}

impl AppModel {
    /// A message of the active room that was not
    /// redacted, in a room the client knows, is shown, on top or at the
    /// bottom; at the bottom, the first new message comes after a divider.
    pub fn add_room_message(&self, msg: &Message, top: bool, first_new: bool) -> (r: Option<HistoryInsert>)
        ensures
            match spec_ui_message(*self, msg@) {
                Some((t, h, name)) => if msg@.room == or_empty(self.active_room) && !msg.redacted
                    && room_index(self.rooms@, or_empty(self.active_room)) is Some {
                    r matches Some(ins) && crate::outbox::shows(ins.msg, msg@, t, h, name) && ins.top == top
                        && ins.divider == (!top && first_new)
                } else {
                    r is None
                },
                None => r is None,
            },
    {
        let active = match &self.active_room {
            Some(a) => a.as_str(),
            None => {
                proof {
                    reveal_strlit("");
                    assert(""@ =~= Seq::<char>::empty());
                }
                ""
            },
        };
        if !crate::json::str_eq(msg.room.as_str(), active) || msg.redacted {
            return None;
        }
        if crate::appop::find_room(&self.rooms, active).is_none() {
            return None;
        }
        match self.create_new_room_message(msg) {
            Some(u) => Some(HistoryInsert { msg: u, top, divider: !top && first_new }),
            None => None,
        }
    }
}

proof fn lemma_create_rows(h: RoomHistoryV, d: Seq<UiMessageV>)
    ensures
        fed_create(h, d).rows == h.rows + d.reverse(),
    decreases d.len(),
{
    if d.len() == 0 {
        assert(h.rows + d.reverse() =~= h.rows);
    } else {
        let rest = d.drop_last();
        let prev = if rest.len() > 0 { Some(rest.last()) } else { None };
        let h2 = RoomHistoryV { rows: h.rows.push(d.last()), list: seq![(d.last(), wants_header(d.last(), prev))] + h.list };
        lemma_create_rows(h2, rest);
        assert(h.rows.push(d.last()) + rest.reverse() =~= h.rows + d.reverse());
    }
}

proof fn lemma_last_with_id_first(ms: Seq<UiMessageV>, id: Seq<char>)
    requires
        ms.len() > 0,
        ms[0].id == id,
        forall|j: int| 0 < j < ms.len() ==> #[trigger] ms[j].id != id,
    ensures
        last_with_id(ms, id) == Some(0int),
    decreases ms.len(),
{
    if ms.len() > 1 {
        assert(ms.last().id != id);
        let r = ms.drop_last();
        assert forall|j: int| 0 < j < r.len() implies #[trigger] r[j].id != id by {
            assert(r[j] == ms[j]);
        }
        lemma_last_with_id_first(r, id);
    }
}

/// Updating a history with the very messages it was just created from, no
/// two with the same id, changes nothing: every message is shown once.
pub proof fn lemma_update_after_create(ms: Seq<UiMessageV>)
    requires
        ms.len() > 0,
        forall|i: int, j: int| 0 <= i < j < ms.len() ==> ms[i].id != ms[j].id,
    ensures
        ({
            let h = fed_create(RoomHistoryV { rows: Seq::empty(), list: Seq::empty() }, ms);
            let (h2, data) = update_start(h, ms);
            fed_update(h2, data) == h
        }),
{
    let h0 = RoomHistoryV { rows: Seq::<UiMessageV>::empty(), list: Seq::<(UiMessageV, bool)>::empty() };
    let h = fed_create(h0, ms);
    lemma_create_rows(h0, ms);
    assert(h.rows =~= ms.reverse());
    assert(h.rows.last() == ms[0]);
    assert forall|j: int| 0 < j < ms.len() implies #[trigger] ms[j].id != ms[0].id by {}
    lemma_last_with_id_first(ms, ms[0].id);
    let (h2, data) = update_start(h, ms);
    assert(data =~= Seq::<UiMessageV>::empty());
}

} // verus!
